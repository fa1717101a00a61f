//! Facts about lines, pieces and joined texts.
use vstd::prelude::*;

use crate::matcher::{escaped, is_meta};
use crate::text::{
    contains, decimal, find, find_is_first, is_white_space, joined, lines, occurs_in, pieces,
    pieces_not_empty, split, stands_at, trimmed_end, unified, Eol, Trim,
};

verus! {

// ---- Line endings ----

/// Two texts are unified each for itself, unless a pair of carriage return
/// and line feed stands where they meet.
pub proof fn unified_concat(left: Seq<char>, right: Seq<char>)
    requires
        !(left.len() > 0 && left.last() == '\r' && right.len() > 0 && right[0] == '\n'),
    ensures
        unified(left + right) == unified(left) + unified(right),
    decreases right.len(),
{
    let whole = left + right;
    if right.len() == 0 {
        assert(whole == left);
        assert(unified(left) + unified(right) =~= unified(left));
    } else if right.len() >= 2 && right.last() == '\n' && right[right.len() - 2] == '\r' {
        let front = right.take(right.len() - 2);
        assert(whole.take(whole.len() - 2) == left + front);
        unified_concat(left, front);
        assert(unified(whole) =~= unified(left) + unified(right));
    } else {
        let front = right.drop_last();
        assert(whole.drop_last() == left + front);
        unified_concat(left, front);
        assert(unified(whole) =~= unified(left) + unified(right));
    }
}

/// A text and a line ending are unified to the unified text and a line feed,
/// unless the text ends with a carriage return and the ending is a line feed.
pub proof fn unified_end(text: Seq<char>, eol: Eol)
    requires
        !(eol == Eol::Lf && text.len() > 0 && text.last() == '\r'),
    ensures
        unified(text + eol.chars()) == unified(text).push('\n'),
{
    let whole = text + eol.chars();
    match eol {
        Eol::Lf => {
            assert(whole.drop_last() == text);
        },
        Eol::CrLf => {
            assert(whole.take(whole.len() - 2) == text);
        },
    }
}

/// A text without carriage returns is unified already.
pub proof fn unified_plain(text: Seq<char>)
    requires
        !text.contains('\r'),
    ensures
        unified(text) == text,
    decreases text.len(),
{
    if text.len() > 0 {
        let front = text.drop_last();
        assert(!front.contains('\r')) by {
            if front.contains('\r') {
                let i = choose|i: int| 0 <= i < front.len() && front[i] == '\r';
                assert(text[i] == '\r');
            }
        }
        if text.len() >= 2 {
            assert(text.contains(text[text.len() - 2]));
        }
        unified_plain(front);
        assert(front.push(text.last()) == text);
    }
}

/// Where a text goes on, its last piece goes on with the first piece of what is
/// behind.
pub proof fn pieces_append(left: Seq<char>, right: Seq<char>, separator: char)
    ensures
        pieces(left, separator).len() > 0,
        pieces(right, separator).len() > 0,
        pieces(left + right, separator) == pieces(left, separator).drop_last().push(
            pieces(left, separator).last() + pieces(right, separator)[0],
        ) + pieces(right, separator).drop_first(),
    decreases right.len(),
{
    pieces_not_empty(left, separator);
    pieces_not_empty(right, separator);
    let before = pieces(left, separator);
    if right.len() == 0 {
        assert(left + right =~= left);
        assert(pieces(right, separator) =~= seq![Seq::<char>::empty()]);
        assert(before.last() + Seq::<char>::empty() =~= before.last());
        assert(pieces(left + right, separator) =~= before.drop_last().push(
            before.last() + pieces(right, separator)[0],
        ) + pieces(right, separator).drop_first());
    } else {
        let front = right.drop_last();
        pieces_append(left, front, separator);
        pieces_not_empty(front, separator);
        assert((left + right).drop_last() =~= left + front);
        let some = pieces(front, separator);
        let all = pieces(right, separator);
        let done = before.drop_last().push(before.last() + some[0]) + some.drop_first();
        assert(pieces(left + front, separator) == done);
        if right.last() == separator {
            assert(all =~= some.push(Seq::empty()));
            assert(done.push(Seq::empty()) =~= before.drop_last().push(before.last() + all[0])
                + all.drop_first());
        } else {
            let grown = some.last().push(right.last());
            assert(all =~= some.drop_last().push(grown));
            if some.len() == 1 {
                assert((before.last() + some[0]).push(right.last()) =~= before.last() + grown);
            }
            assert(done.drop_last().push(done.last().push(right.last())) =~= before.drop_last().push(
                before.last() + all[0],
            ) + all.drop_first());
        }
    }
}

/// The pieces before and after a separator are the pieces of both sides.
pub proof fn pieces_concat(left: Seq<char>, separator: char, right: Seq<char>)
    ensures
        pieces(left.push(separator) + right, separator) == pieces(left, separator) + pieces(
            right,
            separator,
        ),
    decreases right.len(),
{
    let start = left.push(separator);
    let whole = start + right;
    pieces_not_empty(left, separator);
    if right.len() == 0 {
        assert(whole == start);
        assert(start.drop_last() == left);
        assert(pieces(whole, separator) =~= pieces(left, separator) + pieces(right, separator));
    } else {
        let front = right.drop_last();
        assert(whole.drop_last() == start + front);
        pieces_concat(left, separator, front);
        pieces_not_empty(front, separator);
        assert(pieces(whole, separator) =~= pieces(left, separator) + pieces(right, separator));
    }
}

/// The lines before and after a line ending are the lines of both sides,
/// unless the ending is a line feed behind a carriage return.
pub proof fn lines_concat(left: Seq<char>, eol: Eol, right: Seq<char>)
    requires
        !(eol == Eol::Lf && left.len() > 0 && left.last() == '\r'),
    ensures
        lines(left + eol.chars() + right) == lines(left) + lines(right),
{
    let start = left + eol.chars();
    unified_end(left, eol);
    assert(start.last() == '\n');
    unified_concat(start, right);
    pieces_concat(unified(left), '\n', unified(right));
}

/// A text without line feeds is one line.
pub proof fn one_line(text: Seq<char>)
    requires
        !text.contains('\n'),
    ensures
        lines(text) == seq![text],
    decreases text.len(),
{
    if text.len() == 0 {
        assert(text == Seq::<char>::empty());
        assert(unified(text) == Seq::<char>::empty());
        assert(lines(text) =~= seq![text]);
    } else {
        let front = text.drop_last();
        assert(!front.contains('\n')) by {
            prefix_occurs(front, text, '\n');
        }
        one_line(front);
        assert(text.contains(text[text.len() - 1]));
        assert(text.last() != '\n');
        assert(unified(text) == unified(front).push(text.last()));
        let flat = unified(text);
        assert(flat.drop_last() == unified(front));
        assert(lines(text) =~= seq![front.push(text.last())]);
        assert(front.push(text.last()) == text);
    }
}

/// Lines that are joined by a line ending are the lines of what they join to,
/// unless one ends with a carriage return and the ending is a line feed.
pub proof fn lines_of_joined(list: Seq<Seq<char>>, eol: Eol)
    requires
        list.len() > 0,
        !occurs_in(list, '\n'),
        forall|i: int|
            0 <= i < list.len() ==> !(eol == Eol::Lf && #[trigger] list[i].len() > 0
                && list[i].last() == '\r'),
    ensures
        lines(joined(list, eol.chars())) == list,
    decreases list.len(),
{
    assert(!list[0].contains('\n'));
    one_line(list[0]);
    if list.len() == 1 {
        assert(list =~= seq![list[0]]);
    } else {
        let rest = list.drop_first();
        assert forall|i: int| 0 <= i < rest.len() implies !(#[trigger] rest[i].contains('\n')) by {
            assert(rest[i] == list[i + 1]);
            assert(!list[i + 1].contains('\n'));
        }
        lines_of_joined(rest, eol);
        lines_concat(list[0], eol, joined(rest, eol.chars()));
        assert(list =~= seq![list[0]] + rest);
    }
}

/// A carriage return at the end of a text stands at the end of its last line.
pub proof fn lines_push_return(text: Seq<char>)
    ensures
        lines(text).len() > 0,
        lines(text.push('\r')) == lines(text).drop_last().push(lines(text).last().push('\r')),
{
    let whole = text.push('\r');
    pieces_not_empty(unified(text), '\n');
    assert(whole.drop_last() == text);
    assert(unified(whole) == unified(text).push('\r'));
    assert(unified(whole).drop_last() == unified(text));
}

// ---- Joined texts ----

/// Joined lists join to one with a separator between.
pub proof fn joined_concat(left: Seq<Seq<char>>, right: Seq<Seq<char>>, separator: Seq<char>)
    requires
        left.len() > 0,
        right.len() > 0,
    ensures
        joined(left + right, separator) == joined(left, separator) + separator + joined(
            right,
            separator,
        ),
    decreases left.len(),
{
    let whole = left + right;
    if left.len() == 1 {
        assert(whole.drop_first() == right);
    } else {
        assert(whole.drop_first() == left.drop_first() + right);
        joined_concat(left.drop_first(), right, separator);
        assert(joined(whole, separator) =~= joined(left, separator) + separator + joined(
            right,
            separator,
        ));
    }
}

/// A list joins to a text that stands in what a longer list joins to.
pub proof fn joined_stands(
    before: Seq<Seq<char>>,
    middle: Seq<Seq<char>>,
    after: Seq<Seq<char>>,
    separator: Seq<char>,
)
    requires
        middle.len() > 0,
    ensures
        contains(joined(before + middle + after, separator), joined(middle, separator)),
{
    let part = joined(middle, separator);
    let tail = joined(middle + after, separator);
    if after.len() > 0 {
        joined_concat(middle, after, separator);
        assert(tail.subrange(0, part.len() as int) =~= part);
    } else {
        assert(middle + after == middle);
        assert(tail.subrange(0, part.len() as int) =~= part);
    }
    let whole = joined(before + middle + after, separator);
    assert(before + middle + after == before + (middle + after));
    if before.len() > 0 {
        joined_concat(before, middle + after, separator);
        let at = joined(before, separator).len() + separator.len();
        assert(whole.subrange(at as int, (at + part.len()) as int) =~= tail.subrange(0, part.len() as int));
        assert(stands_at(whole, part, at as int));
    } else {
        assert(before + (middle + after) == middle + after);
        assert(stands_at(whole, part, 0));
    }
}

/// The pieces of a text hold no separator.
pub proof fn pieces_hold_no_separator(text: Seq<char>, separator: char)
    ensures
        !occurs_in(pieces(text, separator), separator),
    decreases text.len(),
{
    let after = pieces(text, separator);
    if text.len() > 0 {
        let before = pieces(text.drop_last(), separator);
        pieces_hold_no_separator(text.drop_last(), separator);
        pieces_not_empty(text.drop_last(), separator);
        assert forall|i: int| 0 <= i < after.len() implies !(#[trigger] after[i].contains(
            separator,
        )) by {
            if i < before.len() - 1 || (text.last() == separator && i == before.len() - 1) {
                assert(after[i] == before[i]);
                assert(!before[i].contains(separator));
            } else if text.last() != separator {
                let old = before[before.len() - 1];
                assert(!old.contains(separator));
                assert(after[i] == old.push(text.last()));
                if after[i].contains(separator) {
                    let k = choose|k: int| 0 <= k < after[i].len() && after[i][k] == separator;
                    if k < old.len() {
                        assert(old[k] == separator);
                    }
                }
            }
        }
    }
}

/// A text without the separator is its only piece.
pub proof fn one_piece(text: Seq<char>, separator: char)
    requires
        !text.contains(separator),
    ensures
        pieces(text, separator) == seq![text],
    decreases text.len(),
{
    if text.len() == 0 {
        assert(text == Seq::<char>::empty());
        assert(pieces(text, separator) =~= seq![text]);
    } else {
        let front = text.drop_last();
        assert(text.last() != separator) by {
            assert(text[text.len() - 1] == text.last());
        }
        assert(!front.contains(separator)) by {
            if front.contains(separator) {
                let i = choose|i: int| 0 <= i < front.len() && front[i] == separator;
                assert(text[i] == separator);
            }
        }
        one_piece(front, separator);
        assert(front.push(text.last()) == text);
        assert(pieces(text, separator) =~= seq![text]);
    }
}

/// The pieces of joined texts are those texts.
pub proof fn pieces_of_joined(parts: Seq<Seq<char>>, separator: char)
    requires
        parts.len() > 0,
        !occurs_in(parts, separator),
    ensures
        pieces(joined(parts, seq![separator]), separator) == parts,
    decreases parts.len(),
{
    assert(!parts[0].contains(separator));
    one_piece(parts[0], separator);
    if parts.len() == 1 {
        assert(parts =~= seq![parts[0]]);
    } else {
        let rest = parts.drop_first();
        assert forall|i: int| 0 <= i < rest.len() implies !(#[trigger] rest[i].contains(
            separator,
        )) by {
            assert(rest[i] == parts[i + 1]);
            assert(!parts[i + 1].contains(separator));
        }
        pieces_of_joined(rest, separator);
        let tail = joined(rest, seq![separator]);
        assert(joined(parts, seq![separator]) =~= parts[0].push(separator) + tail);
        pieces_concat(parts[0], separator, tail);
        assert(parts =~= seq![parts[0]] + rest);
    }
}

/// Joined with the separator, the pieces of a text are the text.
pub proof fn joined_pieces(text: Seq<char>, separator: char)
    ensures
        joined(pieces(text, separator), seq![separator]) == text,
    decreases text.len(),
{
    let list = pieces(text, separator);
    if text.len() == 0 {
        assert(list =~= seq![Seq::<char>::empty()]);
    } else {
        let front = text.drop_last();
        let before = pieces(front, separator);
        joined_pieces(front, separator);
        pieces_not_empty(front, separator);
        if text.last() == separator {
            let last = seq![Seq::<char>::empty()];
            assert(list =~= before + last);
            joined_concat(before, last, seq![separator]);
            assert(joined(last, seq![separator]) == Seq::<char>::empty());
            assert(joined(list, seq![separator]) =~= front.push(separator));
        } else {
            let grown = before.last().push(text.last());
            if before.len() == 1 {
                assert(list =~= seq![grown]);
                assert(before[0] == front);
            } else {
                let head = before.drop_last();
                let old_tail = seq![before.last()];
                let new_tail = seq![grown];
                assert(before =~= head + old_tail);
                assert(list =~= head + new_tail);
                joined_concat(head, old_tail, seq![separator]);
                joined_concat(head, new_tail, seq![separator]);
                assert(joined(old_tail, seq![separator]) == before.last());
                assert(joined(new_tail, seq![separator]) == grown);
                assert(joined(list, seq![separator]) =~= front.push(text.last()));
            }
            assert(joined(list, seq![separator]) =~= front.push(text.last()));
        }
        assert(front.push(text.last()) == text);
    }
}

// ---- Trimming ----

/// A text without its end is a prefix of the text.
pub proof fn trimmed_end_is_prefix(text: Seq<char>, trim: Trim)
    ensures
        trimmed_end(text, trim).is_prefix_of(text),
    decreases text.len(),
{
    if text.len() > 0 && trim.takes(text.last()) {
        let front = text.drop_last();
        trimmed_end_is_prefix(front, trim);
        let rest = trimmed_end(front, trim);
        assert(text.subrange(0, rest.len() as int) =~= front.subrange(0, rest.len() as int));
    } else {
        assert(text.subrange(0, text.len() as int) =~= text);
    }
}

/// A text without trailing white space does not end with white space.
pub proof fn trimmed_end_is_trimmed(text: Seq<char>)
    ensures
        trimmed_end(text, Trim::WhiteSpace).len() > 0 ==> !is_white_space(
            trimmed_end(text, Trim::WhiteSpace).last(),
        ),
    decreases text.len(),
{
    if text.len() > 0 && is_white_space(text.last()) {
        trimmed_end_is_trimmed(text.drop_last());
    }
}

/// What is cut off the end of a text is white space.
pub proof fn trimmed_end_cuts_white_space(line: Seq<char>)
    ensures
        forall|i: int|
            trimmed_end(line, Trim::WhiteSpace).len() <= i < line.len() ==> is_white_space(
                #[trigger] line[i],
            ),
    decreases line.len(),
{
    if line.len() > 0 && is_white_space(line.last()) {
        let front = line.drop_last();
        trimmed_end_cuts_white_space(front);
        assert forall|i: int|
            trimmed_end(line, Trim::WhiteSpace).len() <= i < line.len() implies is_white_space(
            #[trigger] line[i],
        ) by {
            if i < front.len() {
                assert(front[i] == line[i]);
            }
        }
    }
}

/// What occurs in a prefix of a text occurs in the text.
pub proof fn prefix_occurs(prefix: Seq<char>, text: Seq<char>, c: char)
    requires
        prefix.is_prefix_of(text),
        !text.contains(c),
    ensures
        !prefix.contains(c),
{
    if prefix.contains(c) {
        let i = choose|i: int| 0 <= i < prefix.len() && prefix[i] == c;
        assert(text.subrange(0, prefix.len() as int)[i] == text[i]);
        assert(text.contains(text[i]));
    }
}

// ---- Escaping ----

/// Two texts are escaped each for itself.
pub proof fn escaped_concat(left: Seq<char>, right: Seq<char>)
    ensures
        escaped(left + right) == escaped(left) + escaped(right),
    decreases right.len(),
{
    let whole = left + right;
    if right.len() == 0 {
        assert(whole == left);
        assert(escaped(left) + escaped(right) =~= escaped(left));
    } else {
        assert(whole.drop_last() == left + right.drop_last());
        escaped_concat(left, right.drop_last());
        assert(escaped(whole) =~= escaped(left) + escaped(right));
    }
}

/// A line feed is escaped to itself.
proof fn escaped_line_feed()
    ensures
        escaped(seq!['\n']) == seq!['\n'],
{
    assert(!is_meta('\n'));
    let feed = seq!['\n'];
    assert(feed.drop_last() == Seq::<char>::empty());
    assert(escaped(Seq::<char>::empty()) == Seq::<char>::empty());
    assert(escaped(seq!['\n']) =~= seq!['\n']);
}

/// Escaped, a text holds no line feed that it did not hold before.
pub proof fn escaped_occurs(text: Seq<char>)
    requires
        !text.contains('\n'),
    ensures
        !escaped(text).contains('\n'),
    decreases text.len(),
{
    if text.len() > 0 {
        let front = text.drop_last();
        assert(text.last() != '\n') by {
            assert(text[text.len() - 1] == text.last());
        }
        assert(!front.contains('\n')) by {
            if front.contains('\n') {
                let i = choose|i: int| 0 <= i < front.len() && front[i] == '\n';
                assert(text[i] == '\n');
            }
        }
        escaped_occurs(front);
        let done = escaped(front);
        let all = escaped(text);
        if all.contains('\n') {
            let i = choose|i: int| 0 <= i < all.len() && all[i] == '\n';
            if i < done.len() {
                assert(done[i] == '\n');
            }
        }
    }
}

/// Joined lines are escaped line by line.
pub proof fn escaped_joined(list: Seq<Seq<char>>)
    ensures
        escaped(joined(list, seq!['\n'])) == joined(
            list.map_values(|line: Seq<char>| escaped(line)),
            seq!['\n'],
        ),
    decreases list.len(),
{
    let all = list.map_values(|line: Seq<char>| escaped(line));
    if list.len() > 1 {
        let rest = list.drop_first();
        escaped_joined(rest);
        escaped_line_feed();
        let tail = joined(rest, seq!['\n']);
        escaped_concat(list[0] + seq!['\n'], tail);
        escaped_concat(list[0], seq!['\n']);
        assert(all.drop_first() =~= rest.map_values(|line: Seq<char>| escaped(line)));
    } else if list.len() == 1 {
        assert(all[0] == escaped(list[0]));
    }
}

// ---- Searching and splitting ----

/// A part is found at the first place where it stands.
pub proof fn found_at(text: Seq<char>, part: Seq<char>, at: int)
    requires
        stands_at(text, part, at),
        forall|i: int| 0 <= i < at ==> !stands_at(text, part, i),
    ensures
        find(text, part) == Some(at),
{
    find_is_first(text, part);
    assert(contains(text, part));
    let first = find(text, part)->0;
    if first < at {
        assert(!stands_at(text, part, first));
    }
    if at < first {
        assert(!stands_at(text, part, at));
    }
}

/// Whether a text that a separator follows is seen to end there: the separator
/// does not stand earlier, not even with some of its own characters.
pub open spec fn ends_at_separator(text: Seq<char>, separator: Seq<char>) -> bool {
    !contains(text + separator.drop_last(), separator)
}

/// Splitting at the first separator.
pub proof fn split_first(first: Seq<char>, separator: Seq<char>, rest: Seq<char>)
    requires
        separator.len() > 0,
        ends_at_separator(first, separator),
    ensures
        split(first + separator + rest, separator) == seq![first] + split(rest, separator),
{
    let text = first + separator + rest;
    let at = first.len() as int;
    assert(text.subrange(at, at + separator.len()) =~= separator);
    assert forall|i: int| 0 <= i < at implies !stands_at(text, separator, i) by {
        if stands_at(text, separator, i) {
            let seen = first + separator.drop_last();
            assert(text.subrange(i, i + separator.len()) =~= seen.subrange(
                i,
                i + separator.len(),
            ));
            assert(stands_at(seen, separator, i));
        }
    }
    found_at(text, separator, at);
    assert(text.take(at) =~= first);
    assert(text.skip(at + separator.len()) =~= rest);
}

/// A text without the separator is not split.
pub proof fn split_nothing(text: Seq<char>, separator: Seq<char>)
    requires
        separator.len() > 0,
        !contains(text, separator),
    ensures
        split(text, separator) == seq![text],
{
    find_is_first(text, separator);
}

/// Whether texts can be told apart when a separator stands between them.
pub open spec fn told_apart(parts: Seq<Seq<char>>, separator: Seq<char>) -> bool {
    &&& parts.len() > 0
    &&& separator.len() > 0
    &&& forall|i: int|
        0 <= i < parts.len() - 1 ==> ends_at_separator(#[trigger] parts[i], separator)
    &&& !contains(parts.last(), separator)
}

/// Texts that a separator stands between are what their joined text splits
/// into.
pub proof fn split_of_joined(parts: Seq<Seq<char>>, separator: Seq<char>)
    requires
        told_apart(parts, separator),
    ensures
        split(joined(parts, separator), separator) == parts,
    decreases parts.len(),
{
    if parts.len() == 1 {
        split_nothing(parts[0], separator);
        assert(parts =~= seq![parts[0]]);
    } else {
        let rest = parts.drop_first();
        assert(forall|i: int| 0 <= i < rest.len() ==> #[trigger] rest[i] == parts[i + 1]);
        assert(rest.last() == parts.last());
        split_of_joined(rest, separator);
        assert(ends_at_separator(parts[0], separator));
        split_first(parts[0], separator, joined(rest, separator));
        assert(parts =~= seq![parts[0]] + rest);
    }
}

/// The parts that a text splits into, with the separator between them, are the
/// text, and each part is seen to end where a separator follows.
pub proof fn joined_split(text: Seq<char>, separator: Seq<char>)
    requires
        separator.len() > 0,
    ensures
        told_apart(split(text, separator), separator),
        joined(split(text, separator), separator) == text,
    decreases text.len(),
{
    find_is_first(text, separator);
    match find(text, separator) {
        None => {
            assert(split(text, separator) == seq![text]);
        },
        Some(at) => {
            let first = text.take(at);
            let rest = text.skip(at + separator.len());
            joined_split(rest, separator);
            let some = split(rest, separator);
            let all = split(text, separator);
            assert(all =~= seq![first] + some);
            assert(all.drop_first() =~= some);
            assert(text =~= first + separator + rest);
            assert(ends_at_separator(first, separator)) by {
                let seen = first + separator.drop_last();
                if contains(seen, separator) {
                    let i = choose|i: int| stands_at(seen, separator, i);
                    assert(text.subrange(i, i + separator.len()) =~= seen.subrange(
                        i,
                        i + separator.len(),
                    ));
                    assert(stands_at(text, separator, i));
                }
            }
            assert forall|i: int| 0 <= i < all.len() - 1 implies ends_at_separator(
                #[trigger] all[i],
                separator,
            ) by {
                if i > 0 {
                    assert(all[i] == some[i - 1]);
                }
            }
            assert(all.last() == some.last());
        },
    }
}

// ---- Numbers ----

/// The number that decimal digits stand for.
pub open spec fn number_of(digits: Seq<char>) -> int
    decreases digits.len(),
{
    if digits.len() == 0 {
        0
    } else {
        10 * number_of(digits.drop_last()) + (digits.last() as int - '0' as int)
    }
}

/// The digits of a number stand for it, and only the digits of zero start with
/// a zero.
pub proof fn digits_stand_for_their_number(number: nat)
    ensures
        number_of(decimal(number)) == number,
        decimal(number).len() > 0,
        forall|i: int| 0 <= i < decimal(number).len() ==> '0' <= #[trigger] decimal(number)[i] <= '9',
        number > 0 ==> decimal(number)[0] != '0',
        number == 0 ==> decimal(number) == seq!['0'],
    decreases number,
{
    let digits = decimal(number);
    let last = seq!['0', '1', '2', '3', '4', '5', '6', '7', '8', '9'][(number % 10) as int];
    assert('0' <= last <= '9' && last as int - '0' as int == number % 10);
    if number < 10 {
        assert(digits.drop_last() =~= Seq::<char>::empty());
        assert(number_of(digits.drop_last()) == 0);
    } else {
        digits_stand_for_their_number(number / 10);
        assert(digits.drop_last() =~= decimal(number / 10));
        assert(digits[0] == decimal(number / 10)[0]);
    }
}

// ---- White space ----

/// The characters that are white space, one by one.
pub proof fn the_white_space_characters(c: char)
    ensures
        is_white_space(c) <==> ({
            ||| c == '\t' || c == '\n' || c == '\u{b}' || c == '\u{c}' || c == '\r' || c == ' '
            ||| c == '\u{85}' || c == '\u{a0}' || c == '\u{1680}'
            ||| c == '\u{2000}' || c == '\u{2001}' || c == '\u{2002}' || c == '\u{2003}'
            ||| c == '\u{2004}' || c == '\u{2005}' || c == '\u{2006}' || c == '\u{2007}'
            ||| c == '\u{2008}' || c == '\u{2009}' || c == '\u{200a}'
            ||| c == '\u{2028}' || c == '\u{2029}' || c == '\u{202f}' || c == '\u{205f}'
            ||| c == '\u{3000}'
        }),
{
}

} // verus!
