//! Regular expressions and globs: what this library takes from `regex` and
//! `globset`, and what it knows of them.
use vstd::prelude::*;

use crate::platform::Platform;
use crate::text::{contains, opt_text};

verus! {

// ---- Escaping ----

/// Whether a character has a meaning of its own in a regular expression.
pub open spec fn is_meta(c: char) -> bool {
    seq![
        '\\', '.', '+', '*', '?', '(', ')', '|', '[', ']', '{', '}', '^', '$', '#', '&', '-', '~',
    ].contains(c)
}

/// The text with a backslash before each character that has a meaning of its
/// own in a regular expression.
pub open spec fn escaped(text: Seq<char>) -> Seq<char>
    decreases text.len(),
{
    if text.len() == 0 {
        Seq::empty()
    } else {
        let before = escaped(text.drop_last());
        if is_meta(text.last()) {
            before.push('\\').push(text.last())
        } else {
            before.push(text.last())
        }
    }
}

/// `regex::escape` puts a backslash before each of the 18 meta characters and
/// copies every other character.
pub assume_specification[ regex::escape ](pattern: &str) -> (result: String)
    ensures
        result@ == escaped(pattern@),
;

/// The regular expression for a text that starts with the given characters.
pub open spec fn anchored(text: Seq<char>) -> Seq<char> {
    seq!['^'] + escaped(text)
}

/// Two texts with the same escaped form are the same text.
pub proof fn escaped_is_injective(left: Seq<char>, right: Seq<char>)
    requires
        escaped(left) == escaped(right),
    ensures
        left == right,
    decreases left.len(),
{
    if left.len() == 0 || right.len() == 0 {
        assert(left.len() == 0 && right.len() == 0);
    } else {
        assert(escaped(left).last() == left.last());
        assert(escaped(right).last() == right.last());
        let l = escaped(left.drop_last());
        let r = escaped(right.drop_last());
        if is_meta(left.last()) {
            assert(escaped(left).drop_last().drop_last() == l);
            assert(escaped(right).drop_last().drop_last() == r);
        } else {
            assert(escaped(left).drop_last() == l);
            assert(escaped(right).drop_last() == r);
        }
        escaped_is_injective(left.drop_last(), right.drop_last());
        assert(left == left.drop_last().push(left.last()));
        assert(right == right.drop_last().push(right.last()));
    }
}

/// An escaped text never starts with an anchor.
proof fn escaped_has_no_anchor(text: Seq<char>)
    requires
        text.len() > 0,
    ensures
        escaped(text).len() > 0,
        escaped(text)[0] != '^',
    decreases text.len(),
{
    let metas = seq![
        '\\', '.', '+', '*', '?', '(', ')', '|', '[', ']', '{', '}', '^', '$', '#', '&', '-', '~',
    ];
    assert(metas[12] == '^');
    if text.len() == 1 {
        assert(escaped(text.drop_last()) == Seq::<char>::empty());
    } else {
        escaped_has_no_anchor(text.drop_last());
    }
}

// ---- Regular expressions ----

/// Whether `Regex::new` accepts a pattern.
pub uninterp spec fn regex_compiles(pattern: Seq<char>) -> bool;

/// Whether `Regex::is_match` finds the pattern somewhere in the text.
pub uninterp spec fn regex_matches(pattern: Seq<char>, text: Seq<char>) -> bool;

/// What `Regex::captures` holds of group 1: nothing where the pattern is not
/// found, else the text of the group, if the group took part in the match.
pub uninterp spec fn regex_group(pattern: Seq<char>, text: Seq<char>) -> Option<Option<Seq<char>>>;

/// Compiles a pattern with `Regex::new` and searches the text with
/// `Regex::is_match`.
///
/// Claimed of them: whether the pattern compiles depends on the pattern alone,
/// and whether it is found on pattern and text alone; a pattern that is an
/// escaped text is found exactly where that text stands; the same pattern
/// behind a `^` exactly where that text stands at the start. An escaped text
/// may still be refused for its size: `Regex::new` counts the bytes of the
/// compiled program against a limit of ten mebibytes, so of a pattern at that
/// limit the claim is for one width of pointers.
#[verifier::external_body]
fn search(pattern: &str, text: &str) -> (result: Result<bool, regex::Error>)
    ensures
        result is Ok <==> regex_compiles(pattern@),
        result matches Ok(found) ==> found == regex_matches(pattern@, text@),
        result matches Ok(found) ==> forall|literal: Seq<char>|
            pattern@ == #[trigger] escaped(literal) ==> found == contains(text@, literal),
        result matches Ok(found) ==> forall|literal: Seq<char>|
            pattern@ == #[trigger] anchored(literal) ==> found == literal.is_prefix_of(text@),
{
    match regex::Regex::new(pattern) {
        Ok(regex) => Ok(regex.is_match(text)),
        Err(error) => Err(error),
    }
}

/// A piece of a regular expression: a character that stands for itself,
/// `[^/]`, `[^/]*`, `.*` and `(?:.*/)?`.
pub enum Piece {
    Char(char),
    One,
    Many,
    Any,
    Dirs,
}

/// How a piece is written.
pub open spec fn piece_text(piece: Piece) -> Seq<char> {
    match piece {
        Piece::Char(c) => escaped(seq![c]),
        Piece::One => seq!['[', '^', '/', ']'],
        Piece::Many => seq!['[', '^', '/', ']', '*'],
        Piece::Any => seq!['.', '*'],
        Piece::Dirs => seq!['(', '?', ':', '.', '*', '/', ')', '?'],
    }
}

/// How pieces are written, one behind the other.
pub open spec fn pieces_text(list: Seq<Piece>) -> Seq<char>
    decreases list.len(),
{
    if list.len() == 0 {
        Seq::empty()
    } else {
        piece_text(list[0]) + pieces_text(list.drop_first())
    }
}

/// What a piece takes: the character; one character that is no slash; any
/// characters but slashes; any characters but line feeds; nothing, or any
/// characters but line feeds up to a slash.
pub open spec fn piece_takes(piece: Piece, text: Seq<char>) -> bool {
    match piece {
        Piece::Char(c) => text == seq![c],
        Piece::One => text.len() == 1 && text[0] != '/',
        Piece::Many => !text.contains('/'),
        Piece::Any => !text.contains('\n'),
        Piece::Dirs => text.len() == 0 || (text.last() == '/' && !text.contains('\n')),
    }
}

/// What pieces take, one behind the other.
pub open spec fn pieces_take(list: Seq<Piece>, text: Seq<char>) -> bool
    decreases list.len(),
{
    if list.len() == 0 {
        text.len() == 0
    } else {
        exists|at: int|
            0 <= at <= text.len() && #[trigger] piece_takes(list[0], text.take(at)) && pieces_take(
                list.drop_first(),
                text.skip(at),
            )
    }
}

/// The expression of pieces round a group of characters without a slash, from
/// the start of a text to its end.
pub open spec fn group_expression(before: Seq<Piece>, after: Seq<Piece>) -> Seq<char> {
    seq!['^'] + pieces_text(before) + seq!['(', '[', '^', '/', ']', '+', ')'] + pieces_text(after)
        + seq!['$']
}

/// Whether a text is cut at two places so that the pieces take what is before
/// and behind, and what is between is not empty and holds no slash.
pub open spec fn cut_at(
    before: Seq<Piece>,
    after: Seq<Piece>,
    text: Seq<char>,
    start: int,
    end: int,
) -> bool {
    &&& 0 <= start < end <= text.len()
    &&& pieces_take(before, text.take(start))
    &&& !text.subrange(start, end).contains('/')
    &&& pieces_take(after, text.skip(end))
}

/// Whether a group is what is between two such places, or there are none.
pub open spec fn cut_round_group(
    before: Seq<Piece>,
    after: Seq<Piece>,
    text: Seq<char>,
    group: Option<Option<Seq<char>>>,
) -> bool {
    match group {
        None => forall|start: int, end: int| !#[trigger] cut_at(before, after, text, start, end),
        Some(None) => false,
        Some(Some(taken)) => exists|start: int, end: int| #[trigger]
            cut_at(before, after, text, start, end) && taken == text.subrange(start, end),
    }
}

/// Compiles a pattern with `Regex::new` and takes group 1 of what
/// `Regex::captures` finds in the text.
///
/// Claimed of them: the result depends on pattern and text alone, compiling
/// on the pattern alone. Of an expression that is made of the pieces of
/// `Piece` round one group `([^/]+)`, from the start of the text to its end: it
/// is found if and only if the text can be cut so that the pieces take what is
/// before and behind the cut and what is between is not empty and holds no
/// slash, and then the group is what is between for such a cut.
#[verifier::external_body]
pub(crate) fn capture(pattern: &str, text: &str) -> (result: Result<
    Option<Option<String>>,
    regex::Error,
>)
    ensures
        result is Ok <==> regex_compiles(pattern@),
        result matches Ok(group) ==> group_text(group) == regex_group(pattern@, text@),
        result matches Ok(group) ==> forall|before: Seq<Piece>, after: Seq<Piece>|
            pattern@ == #[trigger] group_expression(before, after) ==> cut_round_group(
                before,
                after,
                text@,
                group_text(group),
            ),
{
    let regex = match regex::Regex::new(pattern) {
        Ok(regex) => regex,
        Err(error) => return Err(error),
    };
    match regex.captures(text) {
        Some(captures) => match captures.get(1) {
            Some(group) => Ok(Some(Some(group.as_str().to_owned()))),
            None => Ok(Some(None)),
        },
        None => Ok(None),
    }
}

/// The text of a captured group.
pub open spec fn group_text(group: Option<Option<String>>) -> Option<Option<Seq<char>>> {
    match group {
        Some(inner) => Some(opt_text(inner)),
        None => None,
    }
}

/// What group 1 of a pattern is in a text: for pieces round a group, what is
/// between two cuts; else what `regex_group` names.
pub open spec fn group_of(pattern: Seq<char>, text: Seq<char>) -> Option<Option<Seq<char>>> {
    if exists|before: Seq<Piece>, after: Seq<Piece>|
        pattern == #[trigger] group_expression(before, after) {
        let (before, after) = choose|before: Seq<Piece>, after: Seq<Piece>|
            pattern == #[trigger] group_expression(before, after);
        if cut_round_group(before, after, text, regex_group(pattern, text)) {
            regex_group(pattern, text)
        } else {
            choose|group: Option<Option<Seq<char>>>| cut_round_group(before, after, text, group)
        }
    } else {
        regex_group(pattern, text)
    }
}

/// Takes group 1 of a pattern in a text.
pub fn group_search(pattern: &str, text: &str) -> (result: Result<
    Option<Option<String>>,
    regex::Error,
>)
    ensures
        result is Ok <==> regex_compiles(pattern@),
        result matches Ok(group) ==> group_text(group) == group_of(pattern@, text@),
{
    capture(pattern, text)
}

/// The meta characters that pieces are told apart by.
proof fn piece_metas()
    ensures
        is_meta('\\'),
        is_meta('['),
        is_meta('.'),
        is_meta('('),
        is_meta('*'),
        is_meta('$'),
{
    let metas = seq![
        '\\', '.', '+', '*', '?', '(', ')', '|', '[', ']', '{', '}', '^', '$', '#', '&', '-', '~',
    ];
    assert(metas[0] == '\\');
    assert(metas[1] == '.');
    assert(metas[3] == '*');
    assert(metas[5] == '(');
    assert(metas[8] == '[');
    assert(metas[13] == '$');
}

/// How one character is written.
proof fn one_escaped(c: char)
    ensures
        is_meta(c) ==> escaped(seq![c]) == seq!['\\', c],
        !is_meta(c) ==> escaped(seq![c]) == seq![c],
{
    let one = seq![c];
    assert(one.drop_last() == Seq::<char>::empty());
    assert(escaped(one.drop_last()) == Seq::<char>::empty());
    assert(one.last() == c);
    if is_meta(c) {
        assert(escaped(one) =~= seq!['\\', c]);
    } else {
        assert(escaped(one) =~= seq![c]);
    }
}

/// Whether a text ends pieces: it is empty, opens the group or is the end.
spec fn ends_pieces(text: Seq<char>) -> bool {
    ||| text.len() == 0
    ||| text.len() >= 2 && text[0] == '(' && text[1] == '['
    ||| text[0] == '$'
}

/// The piece that a text starts with.
spec fn first_piece(text: Seq<char>) -> Option<Piece> {
    if ends_pieces(text) {
        None
    } else if text[0] == '\\' {
        Some(Piece::Char(text[1]))
    } else if text[0] == '[' {
        if text.len() > 4 && text[4] == '*' {
            Some(Piece::Many)
        } else {
            Some(Piece::One)
        }
    } else if text[0] == '.' {
        Some(Piece::Any)
    } else if text[0] == '(' {
        Some(Piece::Dirs)
    } else {
        Some(Piece::Char(text[0]))
    }
}

/// Pieces are read as they were written.
proof fn first_piece_is_read(list: Seq<Piece>, tail: Seq<char>)
    requires
        ends_pieces(tail),
        list.len() > 0,
    ensures
        first_piece(pieces_text(list) + tail) == Some(list[0]),
{
    piece_metas();
    let text = pieces_text(list) + tail;
    let rest = pieces_text(list.drop_first()) + tail;
    assert(text =~= piece_text(list[0]) + rest);
    match list[0] {
        Piece::Char(c) => {
            one_escaped(c);
            if is_meta(c) {
                assert(text[0] == '\\' && text[1] == c);
            } else {
                assert(text[0] == c);
            }
        },
        Piece::One => {
            assert(text[0] == '[');
            no_star_starts(list.drop_first(), tail);
            if text.len() > 4 {
                assert(text[4] == rest[0]);
            }
        },
        Piece::Many => {
            assert(text[0] == '[' && text[4] == '*');
        },
        Piece::Any => {
            assert(text[0] == '.');
        },
        Piece::Dirs => {
            assert(text[0] == '(' && text[1] == '?');
        },
    }
}

proof fn no_star_starts(list: Seq<Piece>, tail: Seq<char>)
    requires
        ends_pieces(tail),
    ensures
        (pieces_text(list) + tail).len() > 0 ==> (pieces_text(list) + tail)[0] != '*',
{
    piece_metas();
    let text = pieces_text(list) + tail;
    if list.len() > 0 {
        assert(text[0] == piece_text(list[0])[0]) by {
            if let Piece::Char(c) = list[0] {
                one_escaped(c);
            }
        }
        if let Piece::Char(c) = list[0] {
            one_escaped(c);
        }
    } else {
        assert(text =~= tail);
    }
}

/// What pieces and their end are written as tells them.
proof fn pieces_are_told(
    left: Seq<Piece>,
    left_tail: Seq<char>,
    right: Seq<Piece>,
    right_tail: Seq<char>,
)
    requires
        ends_pieces(left_tail),
        ends_pieces(right_tail),
        pieces_text(left) + left_tail == pieces_text(right) + right_tail,
    ensures
        left == right,
        left_tail == right_tail,
    decreases left.len(),
{
    let text = pieces_text(left) + left_tail;
    if left.len() > 0 {
        first_piece_is_read(left, left_tail);
    } else {
        assert(text =~= left_tail);
    }
    if right.len() > 0 {
        first_piece_is_read(right, right_tail);
    } else {
        assert(text =~= right_tail);
    }
    if left.len() > 0 && right.len() > 0 {
        let size = piece_text(left[0]).len() as int;
        assert(text.skip(size) =~= pieces_text(left.drop_first()) + left_tail);
        assert(text.skip(size) =~= pieces_text(right.drop_first()) + right_tail);
        pieces_are_told(left.drop_first(), left_tail, right.drop_first(), right_tail);
        assert(left =~= seq![left[0]] + left.drop_first());
        assert(right =~= seq![right[0]] + right.drop_first());
    } else {
        assert(left =~= right);
    }
}

/// What group 1 is for pieces round a group.
pub proof fn group_is_cut(before: Seq<Piece>, after: Seq<Piece>, text: Seq<char>)
    ensures
        cut_round_group(before, after, text, group_of(group_expression(before, after), text)),
{
    let pattern = group_expression(before, after);
    let (left, right) = choose|b: Seq<Piece>, a: Seq<Piece>| pattern == #[trigger] group_expression(
        b,
        a,
    );
    let opening = seq!['(', '[', '^', '/', ']', '+', ')'];
    let tail = opening + pieces_text(after) + seq!['$'];
    let other = opening + pieces_text(right) + seq!['$'];
    assert(pattern.skip(1) =~= pieces_text(before) + tail);
    assert(pattern.skip(1) =~= pieces_text(left) + other);
    pieces_are_told(before, tail, left, other);
    assert(tail.skip(7) =~= pieces_text(after) + seq!['$']);
    assert(other.skip(7) =~= pieces_text(right) + seq!['$']);
    pieces_are_told(after, seq!['$'], right, seq!['$']);
    if exists|start: int, end: int| cut_at(before, after, text, start, end) {
        let (start, end) = choose|start: int, end: int| cut_at(before, after, text, start, end);
        assert(cut_round_group(before, after, text, Some(Some(text.subrange(start, end)))));
    } else {
        assert(cut_round_group(before, after, text, None));
    }
}

/// What a search for a pattern says: nothing where the pattern does not
/// compile; for an escaped text, and for one behind an anchor, whether the
/// text stands there; else what `regex_matches` names.
pub open spec fn regex_says(pattern: Seq<char>, text: Seq<char>) -> Option<bool> {
    if !regex_compiles(pattern) {
        None
    } else if exists|literal: Seq<char>| pattern == #[trigger] escaped(literal) {
        Some(contains(text, choose|literal: Seq<char>| pattern == #[trigger] escaped(literal)))
    } else if exists|literal: Seq<char>| pattern == #[trigger] anchored(literal) {
        Some(
            (choose|literal: Seq<char>| pattern == #[trigger] anchored(literal)).is_prefix_of(text),
        )
    } else {
        Some(regex_matches(pattern, text))
    }
}

/// An escaped text that compiles is found exactly where the text stands.
pub proof fn escaped_finds_the_text(literal: Seq<char>, text: Seq<char>)
    requires
        regex_compiles(escaped(literal)),
    ensures
        regex_says(escaped(literal), text) == Some(contains(text, literal)),
{
    let chosen = choose|l: Seq<char>| escaped(literal) == #[trigger] escaped(l);
    escaped_is_injective(literal, chosen);
}

/// An anchored text that compiles is found exactly where the text stands at
/// the start.
pub proof fn anchored_finds_the_prefix(literal: Seq<char>, text: Seq<char>)
    requires
        regex_compiles(anchored(literal)),
    ensures
        regex_says(anchored(literal), text) == Some(literal.is_prefix_of(text)),
{
    assert forall|l: Seq<char>| anchored(literal) != #[trigger] escaped(l) by {
        assert(anchored(literal)[0] == '^');
        if l.len() > 0 {
            escaped_has_no_anchor(l);
        }
    }
    let chosen = choose|l: Seq<char>| anchored(literal) == #[trigger] anchored(l);
    assert(anchored(literal).skip(1) == escaped(literal));
    assert(anchored(chosen).skip(1) == escaped(chosen));
    escaped_is_injective(literal, chosen);
}

/// Searches a text for a pattern.
pub fn regex_search(pattern: &str, text: &str) -> (result: Result<bool, regex::Error>)
    ensures
        match result {
            Ok(found) => regex_says(pattern@, text@) == Some(found),
            Err(_) => regex_says(pattern@, text@) is None,
        },
{
    search(pattern, text)
}

// ---- Globs ----

/// Whether `GlobBuilder::build` accepts a pattern, where `/` and `\` separate
/// or not as the flags say.
pub uninterp spec fn glob_parses(pattern: Seq<char>, slash: bool, backslash: bool) -> bool;

/// Whether the regular expression that `Glob::regex` gives for a pattern
/// compiles, where `/` and `\` separate or not as the flags say.
pub uninterp spec fn glob_compiles(pattern: Seq<char>, slash: bool, backslash: bool) -> bool;

/// Whether `GlobMatcher::is_match` accepts a path, where `/` and `\` separate
/// or not as the flags say.
pub uninterp spec fn glob_accepts(
    pattern: Seq<char>,
    path: Seq<char>,
    slash: bool,
    backslash: bool,
) -> bool;

/// Builds a glob with `GlobBuilder`, where `*` and `?` do not match `/` and a
/// backslash escapes nothing, and tests a path with `GlobMatcher::is_match`.
/// `Glob::compile_matcher` panics where the expression of the glob does not
/// compile, so the expression is compiled first, under the same limits.
///
/// Claimed of them: whether the pattern is a glob and whether its expression
/// compiles depends on the pattern alone, and whether the path matches on
/// pattern and path alone, but for which of `/` and `\` separate the parts of a
/// path here. `globset` asks `std::path::is_separator` for that, and so does
/// `Platform::here`, from which alone the last argument can come.
#[verifier::external_body]
pub(crate) fn glob_test(pattern: &str, path: &str, platform: Platform) -> (result: Result<
    Result<bool, regex::Error>,
    globset::Error,
>)
    ensures
        result is Ok <==> glob_parses(pattern@, platform@.slash, platform@.backslash),
        result matches Ok(compiled) ==> (compiled is Ok <==> glob_compiles(
            pattern@,
            platform@.slash,
            platform@.backslash,
        )),
        result matches Ok(Ok(matched)) ==> matched == glob_accepts(
            pattern@,
            path@,
            platform@.slash,
            platform@.backslash,
        ),
{
    let mut builder = globset::GlobBuilder::new(pattern);
    let glob = match builder.literal_separator(true).backslash_escape(false).build() {
        Ok(glob) => glob,
        Err(error) => return Err(error),
    };
    match regex::bytes::RegexBuilder::new(glob.regex()).dot_matches_new_line(true).build() {
        Ok(_) => Ok(Ok(glob.compile_matcher().is_match(path))),
        Err(error) => Ok(Err(error)),
    }
}

} // verus!
