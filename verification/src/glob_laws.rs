//! What an ignore glob with a negated group stands for.
use vstd::prelude::*;

use crate::error::Fault;
use crate::glob::{
    fragment_regex, glob_says, group_bounds, group_close, group_open, group_regex, negation,
};
use crate::matcher::{
    cut_at, glob_accepts, glob_compiles, glob_parses, group_expression, group_is_cut, group_of,
    piece_takes, piece_text, pieces_take, pieces_text, regex_compiles, Piece,
};
use crate::platform::Separators;
use crate::text::{contains, find, find_is_first, stands_at};
use crate::text_lemmas::found_at;

verus! {

// ---- The parts round a negated group ----

/// The piece that a part of a glob starts with, and how many characters it is
/// read from.
pub open spec fn leading_piece(part: Seq<char>) -> (Piece, int) {
    if part.len() >= 3 && part[0] == '*' && part[1] == '*' && part[2] == '/' {
        (Piece::Dirs, 3)
    } else if part.len() >= 2 && part[0] == '*' && part[1] == '*' {
        (Piece::Any, 2)
    } else if part[0] == '*' {
        (Piece::Many, 1)
    } else if part[0] == '?' {
        (Piece::One, 1)
    } else {
        (Piece::Char(part[0]), 1)
    }
}

/// The pieces that a part of a glob is read as.
pub open spec fn read_pieces(part: Seq<char>) -> Seq<Piece>
    decreases part.len(),
{
    if part.len() == 0 {
        Seq::empty()
    } else {
        let (first, size) = leading_piece(part);
        seq![first] + read_pieces(part.skip(size))
    }
}

/// Whether a text is one that a part of a glob stands for.
pub open spec fn part_takes(part: Seq<char>, text: Seq<char>) -> bool {
    pieces_take(read_pieces(part), text)
}

/// Stars at the start of a part, character by character.
proof fn leading_stars(part: Seq<char>)
    ensures
        seq!['*', '*'].is_prefix_of(part) == (part.len() >= 2 && part[0] == '*' && part[1] == '*'),
        seq!['*', '*', '/'].is_prefix_of(part) == (part.len() >= 3 && part[0] == '*' && part[1]
            == '*' && part[2] == '/'),
{
    let stars = seq!['*', '*'];
    let stars_slash = seq!['*', '*', '/'];
    if part.len() >= 2 && part[0] == '*' && part[1] == '*' {
        assert(part.subrange(0, 2) =~= stars);
    }
    if stars.is_prefix_of(part) {
        assert(part.subrange(0, 2)[0] == stars[0]);
        assert(part.subrange(0, 2)[1] == stars[1]);
    }
    if part.len() >= 3 && part[0] == '*' && part[1] == '*' && part[2] == '/' {
        assert(part.subrange(0, 3) =~= stars_slash);
    }
    if stars_slash.is_prefix_of(part) {
        assert(part.subrange(0, 3)[0] == stars_slash[0]);
        assert(part.subrange(0, 3)[1] == stars_slash[1]);
        assert(part.subrange(0, 3)[2] == stars_slash[2]);
    }
}

/// Pieces are written one behind the other.
proof fn first_piece_is_written(first: Piece, rest: Seq<Piece>)
    ensures
        pieces_text(seq![first] + rest) == piece_text(first) + pieces_text(rest),
{
    let list = seq![first] + rest;
    assert(list[0] == first);
    assert(list.drop_first() =~= rest);
}

/// How the pieces that stand for more than a character are written.
proof fn pieces_are_written()
    ensures
        "(?:.*/)?"@ == piece_text(Piece::Dirs),
        ".*"@ == piece_text(Piece::Any),
        "[^/]*"@ == piece_text(Piece::Many),
        "[^/]"@ == piece_text(Piece::One),
{
    reveal_strlit("(?:.*/)?");
    reveal_strlit(".*");
    reveal_strlit("[^/]*");
    reveal_strlit("[^/]");
    assert("(?:.*/)?"@ =~= piece_text(Piece::Dirs));
    assert(".*"@ =~= piece_text(Piece::Any));
    assert("[^/]*"@ =~= piece_text(Piece::Many));
    assert("[^/]"@ =~= piece_text(Piece::One));
}

/// The expression of a part of a glob is that of the pieces it is read as.
proof fn part_is_read(part: Seq<char>)
    ensures
        fragment_regex(part) == pieces_text(read_pieces(part)),
    decreases part.len(),
{
    leading_stars(part);
    pieces_are_written();
    if part.len() > 0 {
        let (first, size) = leading_piece(part);
        part_is_read(part.skip(size));
        assert(read_pieces(part) == seq![first] + read_pieces(part.skip(size)));
        first_piece_is_written(first, read_pieces(part.skip(size)));
        assert(fragment_regex(part) == piece_text(first) + fragment_regex(part.skip(size)));
    } else {
        assert(read_pieces(part) == Seq::<Piece>::empty());
        assert(pieces_text(read_pieces(part)) == Seq::<char>::empty());
    }
}

/// A piece and those behind it take a text if and only if it can be cut in two.
proof fn first_piece_takes(first: Piece, rest: Seq<Piece>, text: Seq<char>)
    ensures
        pieces_take(seq![first] + rest, text) <==> exists|at: int|
            0 <= at <= text.len() && piece_takes(first, text.take(at)) && #[trigger] pieces_take(
                rest,
                text.skip(at),
            ),
{
    let list = seq![first] + rest;
    assert(list.drop_first() =~= rest);
    if exists|at: int|
        0 <= at <= text.len() && piece_takes(first, text.take(at)) && #[trigger] pieces_take(
            rest,
            text.skip(at),
        ) {
        let at = choose|at: int|
            0 <= at <= text.len() && piece_takes(first, text.take(at)) && #[trigger] pieces_take(
                rest,
                text.skip(at),
            );
        assert(piece_takes(list[0], text.take(at)));
    }
    if pieces_take(list, text) {
        let at = choose|at: int|
            0 <= at <= text.len() && #[trigger] piece_takes(list[0], text.take(at)) && pieces_take(
                list.drop_first(),
                text.skip(at),
            );
        assert(pieces_take(rest, text.skip(at)));
    }
}

/// An empty part stands for the empty text.
pub proof fn an_empty_part_is_empty(text: Seq<char>)
    ensures
        part_takes(Seq::empty(), text) <==> text.len() == 0,
{
}

/// A star that no star follows stands for any characters but slashes.
pub proof fn a_star_is_any_but_slashes(rest: Seq<char>, text: Seq<char>)
    requires
        rest.len() == 0 || rest[0] != '*',
    ensures
        part_takes(seq!['*'] + rest, text) <==> exists|at: int|
            0 <= at <= text.len() && !text.take(at).contains('/') && #[trigger] part_takes(
                rest,
                text.skip(at),
            ),
{
    let part = seq!['*'] + rest;
    assert(part.skip(1) =~= rest);
    first_piece_takes(Piece::Many, read_pieces(rest), text);
    if exists|at: int|
        0 <= at <= text.len() && !text.take(at).contains('/') && #[trigger] part_takes(
            rest,
            text.skip(at),
        ) {
        let at = choose|at: int|
            0 <= at <= text.len() && !text.take(at).contains('/') && #[trigger] part_takes(
                rest,
                text.skip(at),
            );
        assert(pieces_take(read_pieces(rest), text.skip(at)));
    }
    if part_takes(part, text) {
        let at = choose|at: int|
            0 <= at <= text.len() && piece_takes(Piece::Many, text.take(at))
                && #[trigger] pieces_take(read_pieces(rest), text.skip(at));
        assert(part_takes(rest, text.skip(at)));
    }
}

/// Two stars that no slash follows stand for any characters but line feeds.
pub proof fn two_stars_are_anything(rest: Seq<char>, text: Seq<char>)
    requires
        rest.len() == 0 || rest[0] != '/',
    ensures
        part_takes(seq!['*', '*'] + rest, text) <==> exists|at: int|
            0 <= at <= text.len() && !text.take(at).contains('\n') && #[trigger] part_takes(
                rest,
                text.skip(at),
            ),
{
    let part = seq!['*', '*'] + rest;
    assert(part.skip(2) =~= rest);
    first_piece_takes(Piece::Any, read_pieces(rest), text);
    if exists|at: int|
        0 <= at <= text.len() && !text.take(at).contains('\n') && #[trigger] part_takes(
            rest,
            text.skip(at),
        ) {
        let at = choose|at: int|
            0 <= at <= text.len() && !text.take(at).contains('\n') && #[trigger] part_takes(
                rest,
                text.skip(at),
            );
        assert(pieces_take(read_pieces(rest), text.skip(at)));
    }
    if part_takes(part, text) {
        let at = choose|at: int|
            0 <= at <= text.len() && piece_takes(Piece::Any, text.take(at)) && #[trigger] pieces_take(
                read_pieces(rest),
                text.skip(at),
            );
        assert(part_takes(rest, text.skip(at)));
    }
}

/// Two stars and a slash stand for nothing, or for any leading directories.
pub proof fn two_stars_and_a_slash_are_directories(rest: Seq<char>, text: Seq<char>)
    ensures
        part_takes(seq!['*', '*', '/'] + rest, text) <==> part_takes(rest, text) || exists|at: int|
            0 < at <= text.len() && text[at - 1] == '/' && !text.take(at).contains('\n')
                && #[trigger] part_takes(rest, text.skip(at)),
{
    let part = seq!['*', '*', '/'] + rest;
    assert(part.skip(3) =~= rest);
    first_piece_takes(Piece::Dirs, read_pieces(rest), text);
    assert(text.skip(0) =~= text);
    if part_takes(rest, text) {
        assert(pieces_take(read_pieces(rest), text.skip(0)));
        assert(text.take(0).len() == 0);
    }
    if exists|at: int|
        0 < at <= text.len() && text[at - 1] == '/' && !text.take(at).contains('\n')
            && #[trigger] part_takes(rest, text.skip(at)) {
        let at = choose|at: int|
            0 < at <= text.len() && text[at - 1] == '/' && !text.take(at).contains('\n')
                && #[trigger] part_takes(rest, text.skip(at));
        assert(text.take(at).last() == '/');
        assert(pieces_take(read_pieces(rest), text.skip(at)));
    }
    if part_takes(part, text) {
        let at = choose|at: int|
            0 <= at <= text.len() && piece_takes(Piece::Dirs, text.take(at))
                && #[trigger] pieces_take(read_pieces(rest), text.skip(at));
        assert(part_takes(rest, text.skip(at)));
        if at > 0 {
            assert(text.take(at).last() == text[at - 1]);
        }
    }
}

/// A question mark stands for one character that is no slash.
pub proof fn a_question_mark_is_one_character(rest: Seq<char>, text: Seq<char>)
    ensures
        part_takes(seq!['?'] + rest, text) <==> text.len() > 0 && text[0] != '/' && part_takes(
            rest,
            text.skip(1),
        ),
{
    let part = seq!['?'] + rest;
    assert(part.skip(1) =~= rest);
    first_piece_takes(Piece::One, read_pieces(rest), text);
    if text.len() > 0 && text[0] != '/' && part_takes(rest, text.skip(1)) {
        assert(text.take(1)[0] == text[0]);
        assert(pieces_take(read_pieces(rest), text.skip(1)));
    }
    if part_takes(part, text) {
        let at = choose|at: int|
            0 <= at <= text.len() && piece_takes(Piece::One, text.take(at)) && #[trigger] pieces_take(
                read_pieces(rest),
                text.skip(at),
            );
        assert(at == 1);
        assert(text.take(1)[0] == text[0]);
    }
}

/// Every other character stands for itself.
pub proof fn a_character_is_itself(c: char, rest: Seq<char>, text: Seq<char>)
    requires
        c != '*' && c != '?',
    ensures
        part_takes(seq![c] + rest, text) <==> text.len() > 0 && text[0] == c && part_takes(
            rest,
            text.skip(1),
        ),
{
    let part = seq![c] + rest;
    assert(part.skip(1) =~= rest);
    first_piece_takes(Piece::Char(c), read_pieces(rest), text);
    if text.len() > 0 && text[0] == c && part_takes(rest, text.skip(1)) {
        assert(text.take(1) =~= seq![c]);
        assert(pieces_take(read_pieces(rest), text.skip(1)));
    }
    if part_takes(part, text) {
        let at = choose|at: int|
            0 <= at <= text.len() && piece_takes(Piece::Char(c), text.take(at))
                && #[trigger] pieces_take(read_pieces(rest), text.skip(at));
        assert(text.take(at).len() == 1);
        assert(at == 1);
        assert(text.take(1)[0] == text[0]);
    }
}

/// Whether a part of a glob holds no wildcard.
pub open spec fn is_literal(part: Seq<char>) -> bool {
    !part.contains('*') && !part.contains('?')
}

/// A part without wildcards stands for itself.
pub proof fn a_literal_part_is_itself(part: Seq<char>, text: Seq<char>)
    requires
        is_literal(part),
    ensures
        part_takes(part, text) <==> text == part,
    decreases part.len(),
{
    if part.len() == 0 {
        if text.len() == 0 {
            assert(text =~= part);
        }
    } else {
        let rest = part.skip(1);
        assert(part =~= seq![part[0]] + rest);
        assert(part.contains(part[0]));
        assert forall|c: char| rest.contains(c) implies part.contains(c) by {
            let i = choose|i: int| 0 <= i < rest.len() && rest[i] == c;
            assert(part[i + 1] == c);
        }
        a_character_is_itself(part[0], rest, text);
        if text.len() > 0 {
            a_literal_part_is_itself(rest, text.skip(1));
            if text[0] == part[0] && text.skip(1) == rest {
                assert(text =~= seq![text[0]] + text.skip(1));
            }
        }
        if text == part {
            assert(text[0] == part[0] && text.skip(1) == rest);
        }
    }
}

// ---- The whole glob ----

/// A glob with a negated group, by its parts.
pub open spec fn group_glob(before: Seq<char>, inner: Seq<char>, after: Seq<char>) -> Seq<char> {
    before + seq!['!', '('] + inner + seq![')'] + after
}

/// Whether a path is cut at two places so that the parts round the group stand
/// for what is before and behind, and what is between is a part of a name.
pub open spec fn splits_path(
    before: Seq<char>,
    after: Seq<char>,
    path: Seq<char>,
    start: int,
    end: int,
) -> bool {
    &&& 0 <= start < end <= path.len()
    &&& part_takes(before, path.take(start))
    &&& !path.subrange(start, end).contains('/')
    &&& part_takes(after, path.skip(end))
}

/// No group opens before the first `!(`.
proof fn no_group_opens_before(before: Seq<char>, rest: Seq<char>, i: int)
    requires
        !contains(before, seq!['!', '(']),
        0 <= i < before.len(),
    ensures
        !stands_at(before + seq!['!', '('] + rest, group_open(), i),
{
    let pattern = before + seq!['!', '('] + rest;
    let opening = group_open();
    if stands_at(pattern, opening, i) {
        let found = pattern.subrange(i, i + 2);
        assert(found[0] == opening[0] && found[1] == opening[1]);
        assert(pattern[i] == '!' && pattern[i + 1] == '(');
        if i + 1 < before.len() {
            assert(before.subrange(i, i + 2) =~= opening);
            assert(stands_at(before, opening, i));
        } else {
            assert(pattern[i + 1] == '!');
        }
    }
}

/// A group opens where the first `!(` stands.
proof fn group_opens_at(before: Seq<char>, rest: Seq<char>)
    requires
        !contains(before, seq!['!', '(']),
    ensures
        find(before + seq!['!', '('] + rest, group_open()) == Some(before.len() as int),
{
    let pattern = before + seq!['!', '('] + rest;
    let open = before.len() as int;
    assert(pattern.subrange(open, open + 2) =~= group_open());
    assert forall|i: int| 0 <= i < open implies !stands_at(pattern, group_open(), i) by {
        no_group_opens_before(before, rest, i);
    }
    found_at(pattern, group_open(), open);
}

/// A group closes where the first `)` stands.
proof fn group_closes_at(inner: Seq<char>, after: Seq<char>)
    requires
        !inner.contains(')'),
    ensures
        find(inner + seq![')'] + after, group_close()) == Some(inner.len() as int),
{
    let rest = inner + seq![')'] + after;
    let size = inner.len() as int;
    assert(rest.subrange(size, size + 1) =~= group_close());
    assert forall|i: int| 0 <= i < size implies !stands_at(rest, group_close(), i) by {
        if stands_at(rest, group_close(), i) {
            let found = rest.subrange(i, i + 1);
            assert(found[0] == group_close()[0]);
            assert(inner[i] == ')');
        }
    }
    found_at(rest, group_close(), size);
}

/// A group without a `)` does not close.
proof fn group_stays_open(rest: Seq<char>)
    requires
        !rest.contains(')'),
    ensures
        find(rest, group_close()) is None,
{
    find_is_first(rest, group_close());
    if let Some(at) = find(rest, group_close()) {
        assert(rest.subrange(at, at + 1)[0] == ')');
        assert(rest[at] == ')');
    }
}

/// The expression of a glob with a negated group is that of its parts.
proof fn group_is_read(before: Seq<char>, after: Seq<char>)
    ensures
        group_regex(before, after) == group_expression(read_pieces(before), read_pieces(after)),
{
    part_is_read(before);
    part_is_read(after);
    reveal_strlit("^");
    reveal_strlit("([^/]+)");
    reveal_strlit("$");
    assert("^"@ =~= seq!['^']);
    assert("([^/]+)"@ =~= seq!['(', '[', '^', '/', ']', '+', ')']);
    assert("$"@ =~= seq!['$']);
}

/// The parts of a glob with a negated group are found in it.
proof fn group_glob_is_read(
    before: Seq<char>,
    inner: Seq<char>,
    after: Seq<char>,
    path: Seq<char>,
    separators: Separators,
)
    requires
        !contains(before, seq!['!', '(']),
        !inner.contains(')'),
    ensures
        ({
            let regex = group_expression(read_pieces(before), read_pieces(after));
            glob_says(group_glob(before, inner, after), path, separators) == if !regex_compiles(
                regex,
            ) {
                Err(Fault::Regex(group_glob(before, inner, after)))
            } else {
                match group_of(regex, path) {
                    None => Ok(false),
                    Some(Some(taken)) => negation(glob_says(inner, taken, separators)),
                    Some(None) => negation(glob_says(inner, Seq::empty(), separators)),
                }
            }
        }),
{
    let pattern = group_glob(before, inner, after);
    let open = before.len() as int;
    let close = open + 2 + inner.len();
    let rest = inner + seq![')'] + after;
    assert(pattern =~= before + seq!['!', '('] + rest);
    group_opens_at(before, rest);
    group_closes_at(inner, after);
    assert(pattern.skip(open + 2) =~= rest);
    assert(group_bounds(pattern) == Some((open, close)));
    assert(pattern.take(open) =~= before);
    assert(pattern.skip(close + 1) =~= after);
    assert(pattern.subrange(open + 2, close) =~= inner);
    group_is_read(before, after);
}

/// A glob with a negated group that matches a path matches the whole of it:
/// what its parts stand for stands before and behind a part of a name that the
/// pattern in the group does not match.
pub proof fn a_group_matches_whole_paths(
    before: Seq<char>,
    inner: Seq<char>,
    after: Seq<char>,
    path: Seq<char>,
    separators: Separators,
)
    requires
        !contains(before, seq!['!', '(']),
        !inner.contains(')'),
        glob_says(group_glob(before, inner, after), path, separators) == Ok::<bool, Fault>(true),
    ensures
        exists|start: int, end: int| #[trigger]
            splits_path(before, after, path, start, end) && glob_says(
                inner,
                path.subrange(start, end),
                separators,
            ) == Ok::<bool, Fault>(false),
{
    let (b, a) = (read_pieces(before), read_pieces(after));
    group_glob_is_read(before, inner, after, path, separators);
    group_is_cut(b, a, path);
    let taken = group_of(group_expression(b, a), path)->0->0;
    let (start, end) = choose|start: int, end: int| #[trigger]
        cut_at(b, a, path, start, end) && taken == path.subrange(start, end);
    assert(splits_path(before, after, path, start, end));
}

/// A path that cannot be cut so is not matched.
pub proof fn a_group_matches_no_other_path(
    before: Seq<char>,
    inner: Seq<char>,
    after: Seq<char>,
    path: Seq<char>,
    separators: Separators,
)
    requires
        !contains(before, seq!['!', '(']),
        !inner.contains(')'),
        glob_says(group_glob(before, inner, after), path, separators) is Ok,
        forall|start: int, end: int| !#[trigger] splits_path(before, after, path, start, end),
    ensures
        glob_says(group_glob(before, inner, after), path, separators) == Ok::<bool, Fault>(false),
{
    if glob_says(group_glob(before, inner, after), path, separators) == Ok::<bool, Fault>(true) {
        a_group_matches_whole_paths(before, inner, after, path, separators);
    }
}

/// A path that can be cut so, and of which the pattern in the group says the
/// same for every such cut, gets the opposite answer.
pub proof fn a_group_negates_its_pattern(
    before: Seq<char>,
    inner: Seq<char>,
    after: Seq<char>,
    path: Seq<char>,
    separators: Separators,
    answer: Result<bool, Fault>,
)
    requires
        !contains(before, seq!['!', '(']),
        !inner.contains(')'),
        glob_says(group_glob(before, inner, after), path, separators) is Ok,
        exists|start: int, end: int| splits_path(before, after, path, start, end),
        forall|start: int, end: int| #[trigger]
            splits_path(before, after, path, start, end) ==> glob_says(
                inner,
                path.subrange(start, end),
                separators,
            ) == answer,
    ensures
        glob_says(group_glob(before, inner, after), path, separators) == match answer {
            Ok(matched) => Ok(!matched),
            Err(fault) => Err::<bool, Fault>(fault),
        },
{
    let (b, a) = (read_pieces(before), read_pieces(after));
    group_glob_is_read(before, inner, after, path, separators);
    group_is_cut(b, a, path);
    let (first, last) = choose|start: int, end: int| splits_path(before, after, path, start, end);
    assert(cut_at(b, a, path, first, last));
    let taken = group_of(group_expression(b, a), path)->0->0;
    let (start, end) = choose|start: int, end: int| #[trigger]
        cut_at(b, a, path, start, end) && taken == path.subrange(start, end);
    assert(splits_path(before, after, path, start, end));
}

/// Between parts without wildcards, a negated group matches exactly the paths
/// that are those parts round some characters without a slash that the pattern
/// in the group does not match.
pub proof fn a_group_between_literals(
    before: Seq<char>,
    inner: Seq<char>,
    after: Seq<char>,
    path: Seq<char>,
    separators: Separators,
)
    requires
        is_literal(before),
        is_literal(after),
        !contains(before, seq!['!', '(']),
        !inner.contains(')'),
        glob_says(group_glob(before, inner, after), path, separators) is Ok,
    ensures
        glob_says(group_glob(before, inner, after), path, separators) == Ok::<bool, Fault>(true)
            <==> exists|taken: Seq<char>|
            path == #[trigger] (before + taken + after) && taken.len() > 0 && !taken.contains('/')
                && glob_says(inner, taken, separators) == Ok::<bool, Fault>(false),
        !after.is_suffix_of(path) ==> glob_says(group_glob(before, inner, after), path, separators)
            == Ok::<bool, Fault>(false),
        !before.is_prefix_of(path) ==> glob_says(
            group_glob(before, inner, after),
            path,
            separators,
        ) == Ok::<bool, Fault>(false),
{
    let says = glob_says(group_glob(before, inner, after), path, separators);
    if says == Ok::<bool, Fault>(true) {
        a_group_matches_whole_paths(before, inner, after, path, separators);
        let (start, end) = choose|start: int, end: int| #[trigger]
            splits_path(before, after, path, start, end) && glob_says(
                inner,
                path.subrange(start, end),
                separators,
            ) == Ok::<bool, Fault>(false);
        a_literal_part_is_itself(before, path.take(start));
        a_literal_part_is_itself(after, path.skip(end));
        assert(path =~= before + path.subrange(start, end) + after);
        assert(path.subrange(0, before.len() as int) =~= before);
        assert(path.subrange(path.len() - after.len(), path.len() as int) =~= after);
    }
    if exists|taken: Seq<char>|
        path == #[trigger] (before + taken + after) && taken.len() > 0 && !taken.contains('/')
            && glob_says(inner, taken, separators) == Ok::<bool, Fault>(false) {
        let taken = choose|taken: Seq<char>|
            path == #[trigger] (before + taken + after) && taken.len() > 0 && !taken.contains('/')
                && glob_says(inner, taken, separators) == Ok::<bool, Fault>(false);
        let start = before.len() as int;
        let end = start + taken.len();
        assert(path.take(start) =~= before);
        assert(path.subrange(start, end) =~= taken);
        assert(path.skip(end) =~= after);
        a_literal_part_is_itself(before, path.take(start));
        a_literal_part_is_itself(after, path.skip(end));
        assert(splits_path(before, after, path, start, end));
        assert forall|i: int, j: int| #[trigger] splits_path(before, after, path, i, j) implies glob_says(
            inner,
            path.subrange(i, j),
            separators,
        ) == Ok::<bool, Fault>(false) by {
            a_literal_part_is_itself(before, path.take(i));
            a_literal_part_is_itself(after, path.skip(j));
            assert(path.take(i).len() == i && path.skip(j).len() == path.len() - j);
        }
        a_group_negates_its_pattern(before, inner, after, path, separators, Ok(false));
    }
}

/// A negated group that is not closed is an error that names the pattern.
pub proof fn an_open_group_is_refused(
    before: Seq<char>,
    rest: Seq<char>,
    path: Seq<char>,
    separators: Separators,
)
    requires
        !contains(before, seq!['!', '(']),
        !rest.contains(')'),
    ensures
        glob_says(before + seq!['!', '('] + rest, path, separators) == Err::<bool, Fault>(
            Fault::Message("Unsupported ignore pattern: "@ + (before + seq!['!', '('] + rest)),
        ),
{
    let pattern = before + seq!['!', '('] + rest;
    group_opens_at(before, rest);
    assert(pattern.skip(before.len() as int + 2) =~= rest);
    group_stays_open(rest);
    assert(group_bounds(pattern) is None);
}

/// A pattern without a negated group is one glob: it is refused where it does
/// not parse or its expression does not compile, else it says what the glob
/// says of the path.
pub proof fn a_plain_pattern_is_a_glob(
    pattern: Seq<char>,
    path: Seq<char>,
    separators: Separators,
)
    requires
        !contains(pattern, seq!['!', '(']),
    ensures
        ({
            let slash = separators.slash;
            let backslash = separators.backslash;
            let said = glob_says(pattern, path, separators);
            &&& said == Err::<bool, Fault>(Fault::Glob(pattern)) <==> !glob_parses(
                pattern,
                slash,
                backslash,
            )
            &&& said == Err::<bool, Fault>(Fault::Regex(pattern)) <==> glob_parses(
                pattern,
                slash,
                backslash,
            ) && !glob_compiles(pattern, slash, backslash)
            &&& glob_parses(pattern, slash, backslash) && glob_compiles(pattern, slash, backslash)
                ==> said == Ok::<bool, Fault>(glob_accepts(pattern, path, slash, backslash))
        }),
{
    reveal_strlit("!(");
    find_is_first(pattern, group_open());
    assert(group_open() =~= seq!['!', '(']);
    if find(pattern, group_open()) is Some {
        assert(contains(pattern, seq!['!', '(']));
    }
}

} // verus!
