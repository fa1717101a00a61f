//! What adding, removing and searching for a license mean for a text.
use vstd::prelude::*;

use crate::config::{ConfigView, Mode, RegexView};
use crate::decide::{judged, VerdictView};
use crate::error::Fault;
use crate::license::{
    block_at, compared, compared_line, compared_lines, first_block, first_line_end,
    first_line_end_is_first, inserted, license_pattern, license_start, line_matches, marker_fault,
    marker_value, parts_pattern, removed, replaced, replaced_lines, replaced_parts, too_few,
    used_after, value_verdict,
};
use crate::matcher::{
    anchored, anchored_finds_the_prefix, escaped, escaped_finds_the_text, regex_compiles,
    regex_says,
};
use crate::text::{
    contains, decimal, is_white_space, joined, lines, pieces, pieces_not_empty, split, unified,
    Eol, Trim,
};
use crate::text_lemmas::{
    ends_at_separator, escaped_joined, escaped_occurs, joined_concat, joined_split, one_piece,
    pieces_append, pieces_hold_no_separator, pieces_of_joined, prefix_occurs, split_nothing,
    split_of_joined, told_apart, trimmed_end_cuts_white_space, trimmed_end_is_prefix,
    trimmed_end_is_trimmed, unified_plain,
};

verus! {

// ---- Where a license is put ----

/// A text whose first two characters are not `#!` gets the license on top.
pub proof fn a_license_goes_on_top(contents: Seq<char>, license: Seq<char>, eol: Eol)
    requires
        !(contents.len() >= 2 && contents[0] == '#' && contents[1] == '!'),
    ensures
        inserted(contents, license, eol) == license + eol.chars() + contents,
{
    let start = seq!['#', '!'];
    if start.is_prefix_of(contents) {
        assert(contents.subrange(0, 2)[0] == start[0] && contents.subrange(0, 2)[1] == start[1]);
    }
    assert(inserted(contents, license, eol) =~= license + eol.chars() + contents);
}

/// A text that is one line that starts with `#!` gets the license below it.
pub proof fn a_license_goes_below_a_lone_line(first: Seq<char>, license: Seq<char>, eol: Eol)
    requires
        first.len() >= 2 && first[0] == '#' && first[1] == '!',
        !first.contains('\n') && !first.contains('\r'),
    ensures
        inserted(first, license, eol) == first + eol.chars() + license + eol.chars(),
{
    assert(first.subrange(0, 2) =~= seq!['#', '!']);
    first_line_end_is_first(first);
    if let Some(at) = first_line_end(first) {
        assert(first.contains(first[at]));
    }
    assert(inserted(first, license, eol) =~= first + eol.chars() + license + eol.chars());
}

/// A text whose first line starts with `#!` gets the license below that line,
/// whatever the line ends with.
pub proof fn a_license_goes_below_the_first_line(
    first: Seq<char>,
    ending: Seq<char>,
    rest: Seq<char>,
    license: Seq<char>,
    eol: Eol,
)
    requires
        first.len() >= 2 && first[0] == '#' && first[1] == '!',
        !first.contains('\n') && !first.contains('\r'),
        ending == seq!['\n'] || ending == seq!['\r', '\n'] || (ending == seq!['\r'] && !(rest.len()
            > 0 && rest[0] == '\n')),
    ensures
        inserted(first + ending + rest, license, eol) == first + eol.chars() + license + eol.chars()
            + rest,
{
    let contents = first + ending + rest;
    let at = first.len() as int;
    assert(contents.subrange(0, 2) =~= seq!['#', '!']);
    first_line_end_is_first(contents);
    assert(contents[at] == ending[0]);
    let found = first_line_end(contents)->0;
    if found < at {
        assert(first.contains(first[found]));
    }
    assert(found == at);
    let tail = contents.skip(at);
    let pair = seq!['\r', '\n'];
    assert(tail =~= ending + rest);
    if ending == pair {
        assert(tail.subrange(0, 2) =~= pair);
    } else if pair.is_prefix_of(tail) {
        assert(tail.subrange(0, 2)[0] == pair[0] && tail.subrange(0, 2)[1] == pair[1]);
        assert(tail[1] == rest[0]);
    }
    assert(contents.take(at) =~= first);
    assert(contents.skip(at + ending.len()) =~= rest);
    assert(inserted(contents, license, eol) =~= first + eol.chars() + license + eol.chars() + rest);
}

// ---- What is compared ----

/// A line is compared without white space at its end, and as it stands where
/// trailing white space counts.
pub proof fn a_line_is_compared_without_trailing_white_space(line: Seq<char>, trim: bool)
    ensures
        trim ==> compared_line(line, trim) == line,
        !trim ==> {
            let left = compared_line(line, trim);
            &&& left.is_prefix_of(line)
            &&& left.len() > 0 ==> !is_white_space(left.last())
            &&& forall|i: int| left.len() <= i < line.len() ==> is_white_space(#[trigger] line[i])
        },
{
    if !trim {
        trimmed_end_is_prefix(line, Trim::WhiteSpace);
        trimmed_end_is_trimmed(line);
        trimmed_end_cuts_white_space(line);
    }
}

/// A text is compared line by line, with line feeds between the lines.
pub proof fn a_text_is_compared_line_by_line(text: Seq<char>, trim: bool)
    ensures
        lines(text).len() > 0,
        compared_lines(text, trim).len() == lines(text).len(),
        forall|i: int|
            0 <= i < lines(text).len() ==> #[trigger] compared_lines(text, trim)[i]
                == compared_line(lines(text)[i], trim),
        pieces(compared(text, trim), '\n') == compared_lines(text, trim),
{
    let list = lines(text);
    let all = compared_lines(text, trim);
    pieces_not_empty(unified(text), '\n');
    pieces_hold_no_separator(unified(text), '\n');
    assert forall|i: int| 0 <= i < all.len() implies !(#[trigger] all[i].contains('\n')) by {
        assert(!list[i].contains('\n'));
        if !trim {
            trimmed_end_is_prefix(list[i], Trim::WhiteSpace);
            prefix_occurs(all[i], list[i], '\n');
        }
    }
    pieces_of_joined(all, '\n');
}

/// Without markers, a check finds the license in a file if and only if the
/// license as it is compared stands in the file as it is compared. (The
/// license must not be too large to search for.)
pub proof fn a_check_finds_what_stands_there(
    config: ConfigView,
    eol: Eol,
    contents: Seq<char>,
    license: Seq<char>,
)
    requires
        config.regex is None,
        regex_compiles(escaped(compared(license, config.trim_trailing_whitespace))),
    ensures
        judged(config, Mode::Check, eol, contents, license) == Ok::<VerdictView, Fault>(
            if contains(
                compared(contents, config.trim_trailing_whitespace),
                compared(license, config.trim_trailing_whitespace),
            ) {
                VerdictView::Nothing
            } else {
                VerdictView::Missing
            },
        ),
{
    let trim = config.trim_trailing_whitespace;
    escaped_finds_the_text(compared(license, trim), compared(contents, trim));
}

/// What is done with a file in each mode agrees with what a check says of it:
/// adding writes exactly where the license is missing, removing writes only
/// where it is not, and each of them leaves alone what the other writes.
pub proof fn modes_agree_with_a_check(
    config: ConfigView,
    eol: Eol,
    contents: Seq<char>,
    license: Seq<char>,
)
    requires
        config.regex is None,
    ensures
        match judged(config, Mode::Check, eol, contents, license) {
            Ok(VerdictView::Missing) => {
                &&& judged(config, Mode::Add, eol, contents, license) == Ok::<VerdictView, Fault>(
                    VerdictView::Write(inserted(contents, license, eol)),
                )
                &&& judged(config, Mode::Remove, eol, contents, license) == Ok::<
                    VerdictView,
                    Fault,
                >(VerdictView::Nothing)
            },
            Ok(VerdictView::Nothing) => {
                &&& judged(config, Mode::Add, eol, contents, license) == Ok::<VerdictView, Fault>(
                    VerdictView::Nothing,
                )
                &&& !(judged(config, Mode::Remove, eol, contents, license) matches Ok(
                    VerdictView::Missing,
                ))
            },
            Ok(VerdictView::Write(_)) => false,
            Err(fault) => {
                &&& judged(config, Mode::Add, eol, contents, license) == Err::<VerdictView, Fault>(
                    fault,
                )
                &&& judged(config, Mode::Remove, eol, contents, license) == Err::<
                    VerdictView,
                    Fault,
                >(fault)
            },
        },
{
}

// ---- What is removed ----

/// Whether each line of a license, as it is compared, starts its line of a run
/// of lines of a file.
pub open spec fn license_starts_lines(
    file: Seq<Seq<char>>,
    license: Seq<Seq<char>>,
    start: int,
) -> bool {
    &&& 0 <= start && start + license.len() <= file.len()
    &&& forall|i: int|
        0 <= i < license.len() ==> (#[trigger] license[i]).is_prefix_of(file[start + i])
}

/// The pattern of a license without markers, line by line.
proof fn pattern_is_escaped_lines(license: Seq<char>, trim: bool)
    ensures
        pieces(escaped(compared(license, trim)), '\n') == compared_lines(license, trim).map_values(
            |line: Seq<char>| escaped(line),
        ),
{
    let all = compared_lines(license, trim);
    let patterns = all.map_values(|line: Seq<char>| escaped(line));
    a_text_is_compared_line_by_line(license, trim);
    pieces_hold_no_separator(compared(license, trim), '\n');
    assert forall|i: int| 0 <= i < patterns.len() implies !(#[trigger] patterns[i].contains(
        '\n',
    )) by {
        assert(!all[i].contains('\n'));
        escaped_occurs(all[i]);
    }
    escaped_joined(all);
    pieces_of_joined(patterns, '\n');
}

/// A line that is matched starts with the line of the license.
proof fn a_matched_line_starts_with(line: Seq<char>, text: Seq<char>)
    ensures
        line_matches(escaped(line), text) ==> line.is_prefix_of(text),
        regex_compiles(anchored(line)) && line.is_prefix_of(text) ==> line_matches(
            escaped(line),
            text,
        ),
{
    reveal_strlit("^");
    assert("^"@ + escaped(line) =~= anchored(line));
    if regex_compiles(anchored(line)) {
        anchored_finds_the_prefix(line, text);
    }
}

/// A block of a file is that of the license if and only if each of its lines
/// starts with its line of the license, as far as the lines compile.
proof fn a_block_starts_with_the_license(
    file: Seq<Seq<char>>,
    license: Seq<char>,
    trim: bool,
    start: int,
)
    ensures
        ({
            let patterns = pieces(escaped(compared(license, trim)), '\n');
            let all = compared_lines(license, trim);
            &&& patterns.len() == all.len()
            &&& block_at(file, patterns, start) ==> license_starts_lines(file, all, start)
            &&& license_starts_lines(file, all, start) && (forall|i: int|
                0 <= i < all.len() ==> regex_compiles(anchored(#[trigger] all[i]))) ==> block_at(
                file,
                patterns,
                start,
            )
        }),
{
    let patterns = pieces(escaped(compared(license, trim)), '\n');
    let all = compared_lines(license, trim);
    pattern_is_escaped_lines(license, trim);
    if block_at(file, patterns, start) {
        assert forall|i: int| 0 <= i < all.len() implies (#[trigger] all[i]).is_prefix_of(
            file[start + i],
        ) by {
            assert(line_matches(patterns[i], file[start + i]));
            a_matched_line_starts_with(all[i], file[start + i]);
        }
    }
    if license_starts_lines(file, all, start) && (forall|i: int|
        0 <= i < all.len() ==> regex_compiles(anchored(#[trigger] all[i]))) {
        assert forall|offset: int| 0 <= offset < patterns.len() implies #[trigger] line_matches(
            patterns[offset],
            file[start + offset],
        ) by {
            assert(all[offset].is_prefix_of(file[start + offset]));
            assert(regex_compiles(anchored(all[offset])));
            a_matched_line_starts_with(all[offset], file[start + offset]);
        }
    }
}

/// The first block is a block, and there is none before it.
proof fn first_block_is_first(file: Seq<Seq<char>>, license: Seq<Seq<char>>, from: int)
    requires
        0 <= from,
    ensures
        match first_block(file, license, from) {
            Some(start) => from <= start < file.len() && block_at(file, license, start) && forall|
                i: int,
            |
                from <= i < start ==> !#[trigger] block_at(file, license, i),
            None => forall|i: int|
                from <= i < file.len() ==> !#[trigger] block_at(file, license, i),
        },
    decreases file.len() - from,
{
    if from < file.len() && !block_at(file, license, from) {
        first_block_is_first(file, license, from + 1);
    }
}

/// Without markers, removing a license from a file takes out one run of lines,
/// each of which starts with its line of the license, every one of them, and
/// leaves all other lines in their order, written with the line ending in use.
/// The place of that run is returned.
pub proof fn what_is_removed_is_the_license(
    config: ConfigView,
    eol: Eol,
    contents: Seq<char>,
    license: Seq<char>,
    written: Seq<char>,
) -> (start: int)
    requires
        config.regex is None,
        judged(config, Mode::Remove, eol, contents, license) == Ok::<VerdictView, Fault>(
            VerdictView::Write(written),
        ),
    ensures
        ({
            let file = lines(contents);
            let all = compared_lines(license, config.trim_trailing_whitespace);
            &&& 0 <= start && start + all.len() <= file.len()
            &&& forall|i: int|
                0 <= i < all.len() ==> (#[trigger] all[i]).is_prefix_of(file[start + i])
            &&& written == joined(
                file.take(start) + file.skip(start + all.len()),
                eol.chars(),
            )
        }),
{
    let trim = config.trim_trailing_whitespace;
    let file = lines(contents);
    let patterns = pieces(escaped(compared(license, trim)), '\n');
    first_block_is_first(file, patterns, 0);
    let start = first_block(file, patterns, 0)->0;
    a_block_starts_with_the_license(file, license, trim, start);
    start
}

/// Without markers, the run of lines that is removed is the first one whose
/// lines start with the lines of the license, and it is removed where a check
/// finds the license. (Each line of the license must be short enough to search
/// for.)
pub proof fn the_first_license_is_removed(
    config: ConfigView,
    eol: Eol,
    contents: Seq<char>,
    license: Seq<char>,
    start: int,
)
    requires
        config.regex is None,
        judged(config, Mode::Check, eol, contents, license) == Ok::<VerdictView, Fault>(
            VerdictView::Nothing,
        ),
        forall|i: int|
            0 <= i < compared_lines(license, config.trim_trailing_whitespace).len()
                ==> regex_compiles(
                anchored(#[trigger] compared_lines(license, config.trim_trailing_whitespace)[i]),
            ),
        license_starts_lines(
            lines(contents),
            compared_lines(license, config.trim_trailing_whitespace),
            start,
        ),
        forall|i: int|
            0 <= i < start ==> !#[trigger] license_starts_lines(
                lines(contents),
                compared_lines(license, config.trim_trailing_whitespace),
                i,
            ),
    ensures
        judged(config, Mode::Remove, eol, contents, license) == Ok::<VerdictView, Fault>(
            VerdictView::Write(
                joined(
                    lines(contents).take(start) + lines(contents).skip(
                        start + compared_lines(license, config.trim_trailing_whitespace).len(),
                    ),
                    eol.chars(),
                ),
            ),
        ),
{
    let trim = config.trim_trailing_whitespace;
    let file = lines(contents);
    let patterns = pieces(escaped(compared(license, trim)), '\n');
    a_text_is_compared_line_by_line(license, trim);
    a_block_starts_with_the_license(file, license, trim, start);
    first_block_is_first(file, patterns, 0);
    assert(block_at(file, patterns, start));
    let found = first_block(file, patterns, 0)->0;
    a_block_starts_with_the_license(file, license, trim, found);
    if found < start {
        assert(license_starts_lines(file, compared_lines(license, trim), found));
    }
    assert(found == start);
}

// ---- What is searched for ----

/// Markers are closed if and only if an odd number of texts stand between and
/// round their identifiers.
pub proof fn markers_come_in_pairs(parts: Seq<Seq<char>>, identifier: Seq<char>)
    requires
        told_apart(parts, identifier),
    ensures
        parts.len() % 2 == 1 ==> marker_fault(joined(parts, identifier), identifier) is None,
        parts.len() % 2 == 0 ==> marker_fault(joined(parts, identifier), identifier) == Some(
            Fault::Message(
                "Odd number of regex identifiers found. One must be missing its close"@,
            ),
        ),
{
    split_of_joined(parts, identifier);
}

/// An empty identifier is refused.
pub proof fn an_empty_identifier_is_refused(text: Seq<char>)
    ensures
        marker_fault(text, Seq::empty()) == Some(
            Fault::Message("Regex identifier cannot be empty"@),
        ),
{
}

/// The pattern of a license without markers is the license, escaped.
pub proof fn the_pattern_of_a_text(
    license: Seq<char>,
    trim: bool,
    regex: RegexView,
    text: Seq<char>,
)
    requires
        marker_fault(license, regex.identifier) is None,
        compared(license, trim) == text,
        !contains(text, regex.identifier),
    ensures
        license_pattern(license, trim, None) == Ok::<Seq<char>, Fault>(escaped(text)),
        license_pattern(license, trim, Some(regex)) == Ok::<Seq<char>, Fault>(escaped(text)),
{
    let parts = seq![text];
    split_of_joined(parts, regex.identifier);
    assert(joined(parts, regex.identifier) == text);
    assert(parts.drop_last() == Seq::<Seq<char>>::empty());
    reveal_with_fuel(parts_pattern, 2);
    assert(parts_pattern(parts) =~= escaped(text));
}

/// One more marker behind a license, and a text behind it, add the expression
/// of the marker as it stands and the text, escaped, to the pattern, however
/// many markers there are before.
pub proof fn a_marker_adds_its_expression(
    shorter: Seq<char>,
    longer: Seq<char>,
    trim: bool,
    regex: RegexView,
    parts: Seq<Seq<char>>,
    expression: Seq<char>,
    text: Seq<char>,
    pattern: Seq<char>,
)
    requires
        marker_fault(longer, regex.identifier) is None,
        parts.len() % 2 == 1,
        told_apart(parts, regex.identifier),
        told_apart(parts.push(expression).push(text), regex.identifier),
        compared(shorter, trim) == joined(parts, regex.identifier),
        compared(longer, trim) == compared(shorter, trim) + regex.identifier + expression
            + regex.identifier + text,
        license_pattern(shorter, trim, Some(regex)) == Ok::<Seq<char>, Fault>(pattern),
    ensures
        license_pattern(longer, trim, Some(regex)) == Ok::<Seq<char>, Fault>(
            pattern + expression + escaped(text),
        ),
{
    let more = parts.push(expression).push(text);
    let id = regex.identifier;
    split_of_joined(parts, id);
    split_of_joined(more, id);
    two_more_are_joined(parts, expression, text, id);
    assert(more.drop_last() =~= parts.push(expression));
    assert(parts.push(expression).drop_last() =~= parts);
    reveal_with_fuel(parts_pattern, 3);
    assert(parts_pattern(parts.push(expression)) == parts_pattern(parts) + expression);
    assert(parts_pattern(more) == parts_pattern(parts) + expression + escaped(text));
}

proof fn two_more_are_joined(
    parts: Seq<Seq<char>>,
    first: Seq<char>,
    second: Seq<char>,
    separator: Seq<char>,
)
    requires
        parts.len() > 0,
    ensures
        joined(parts.push(first).push(second), separator) == joined(parts, separator) + separator
            + first + separator + second,
{
    let tail = seq![first, second];
    assert(parts.push(first).push(second) =~= parts + tail);
    joined_concat(parts, tail, separator);
    assert(tail.drop_first() =~= seq![second]);
    assert(joined(tail, separator) =~= first + separator + second) by {
        assert(joined(seq![second], separator) == second);
    }
    assert(joined(parts, separator) + separator + joined(tail, separator) =~= joined(
        parts,
        separator,
    ) + separator + first + separator + second);
}

/// A license with two markers is searched for by its texts, escaped, and the
/// expressions of both markers as they stand.
pub proof fn the_pattern_of_two_markers(
    license: Seq<char>,
    trim: bool,
    regex: RegexView,
    texts: (Seq<char>, Seq<char>, Seq<char>),
    expressions: (Seq<char>, Seq<char>),
)
    requires
        marker_fault(license, regex.identifier) is None,
        told_apart(
            seq![texts.0, expressions.0, texts.1, expressions.1, texts.2],
            regex.identifier,
        ),
        compared(license, trim) == texts.0 + regex.identifier + expressions.0 + regex.identifier
            + texts.1 + regex.identifier + expressions.1 + regex.identifier + texts.2,
    ensures
        license_pattern(license, trim, Some(regex)) == Ok::<Seq<char>, Fault>(
            escaped(texts.0) + expressions.0 + escaped(texts.1) + expressions.1 + escaped(texts.2),
        ),
{
    let id = regex.identifier;
    let parts = seq![texts.0, expressions.0, texts.1, expressions.1, texts.2];
    let three = seq![texts.0, expressions.0, texts.1];
    let one = seq![texts.0];
    assert(parts =~= three.push(expressions.1).push(texts.2));
    assert(three =~= one.push(expressions.0).push(texts.1));
    two_more_are_joined(three, expressions.1, texts.2, id);
    two_more_are_joined(one, expressions.0, texts.1, id);
    assert(joined(one, id) == texts.0);
    split_of_joined(parts, id);
    assert(parts.drop_last() =~= three.push(expressions.1));
    assert(three.push(expressions.1).drop_last() =~= three);
    assert(three.drop_last() =~= one.push(expressions.0));
    assert(one.push(expressions.0).drop_last() =~= one);
    assert(one.drop_last() =~= Seq::<Seq<char>>::empty());
    reveal_with_fuel(parts_pattern, 6);
    assert(parts_pattern(one) =~= escaped(texts.0));
    assert(parts_pattern(three) =~= escaped(texts.0) + expressions.0 + escaped(texts.1));
}

// ---- What is written in place of markers ----

/// The number of markers in some lines.
pub open spec fn markers_in(list: Seq<Seq<char>>, identifier: Seq<char>) -> nat
    decreases list.len(),
{
    if list.len() == 0 {
        0
    } else {
        markers_in(list.drop_last(), identifier) + split(list.last(), identifier).len() / 2
    }
}

/// How many values are used by the markers of a line.
proof fn values_used_by_a_line(parts: Seq<Seq<char>>, values: Seq<Seq<char>>, used: nat)
    ensures
        replaced_parts(parts, values, used) matches Ok((_, now)) ==> now == if values.len() == 1 {
            used
        } else {
            used + parts.len() / 2
        },
    decreases parts.len(),
{
    if parts.len() > 0 {
        values_used_by_a_line(parts.drop_last(), values, used);
    }
}

/// How many values are used by the markers of some lines.
proof fn values_used_by_lines(
    list: Seq<Seq<char>>,
    identifier: Seq<char>,
    values: Seq<Seq<char>>,
)
    ensures
        replaced_lines(list, identifier, values) matches Ok((done, used)) ==> done.len()
            == list.len() && used == if values.len() == 1 {
            0
        } else {
            markers_in(list, identifier)
        },
    decreases list.len(),
{
    if list.len() > 0 {
        values_used_by_lines(list.drop_last(), identifier, values);
        if let Ok((_, used)) = replaced_lines(list.drop_last(), identifier, values) {
            values_used_by_a_line(split(list.last(), identifier), values, used);
        }
    }
}

/// Lines without markers stay as they are behind others.
proof fn unmarked_lines_stay(
    list: Seq<Seq<char>>,
    tail: Seq<Seq<char>>,
    identifier: Seq<char>,
    values: Seq<Seq<char>>,
)
    requires
        identifier.len() > 0,
        forall|i: int| 0 <= i < tail.len() ==> !contains(#[trigger] tail[i], identifier),
    ensures
        replaced_lines(list + tail, identifier, values) == match replaced_lines(
            list,
            identifier,
            values,
        ) {
            Ok((done, used)) => Ok((done + tail, used)),
            Err(fault) => Err(fault),
        },
    decreases tail.len(),
{
    let all = list + tail;
    if tail.len() == 0 {
        assert(all =~= list);
        if let Ok((done, used)) = replaced_lines(list, identifier, values) {
            assert(done + tail =~= done);
        }
    } else {
        let front = tail.drop_last();
        let line = tail[tail.len() - 1];
        assert(forall|i: int| 0 <= i < front.len() ==> #[trigger] front[i] == tail[i]);
        unmarked_lines_stay(list, front, identifier, values);
        assert(all.drop_last() =~= list + front);
        assert(all.last() == line);
        split_nothing(line, identifier);
        let parts = seq![line];
        assert(parts.drop_last() =~= Seq::<Seq<char>>::empty());
        reveal_with_fuel(replaced_parts, 2);
        if let Ok((done, used)) = replaced_lines(list, identifier, values) {
            assert(replaced_parts(parts, values, used) == Ok::<(Seq<char>, nat), Fault>(
                (Seq::<char>::empty() + line, used),
            ));
            assert(Seq::<char>::empty() + line =~= line);
            assert((done + front).push(line) =~= done + tail);
        }
    }
}

/// What one more marker and a text behind it add to a line.
proof fn a_marker_in_a_line(
    parts: Seq<Seq<char>>,
    expression: Seq<char>,
    text: Seq<char>,
    values: Seq<Seq<char>>,
    used: nat,
)
    requires
        parts.len() % 2 == 1,
    ensures
        replaced_parts(parts.push(expression).push(text), values, used) == match replaced_parts(
            parts,
            values,
            used,
        ) {
            Err(fault) => Err(fault),
            Ok((done, now)) => match marker_value(values, now) {
                None => Err(too_few(values, now)),
                Some(value) => match value_verdict(expression, value, regex_says(expression, value)) {
                    Err(fault) => Err(fault),
                    Ok(_) => Ok((done + value + text, used_after(values, now))),
                },
            },
        },
{
    let one = parts.push(expression);
    let two = one.push(text);
    assert(two.drop_last() =~= one);
    assert(one.drop_last() =~= parts);
    reveal_with_fuel(replaced_parts, 3);
}

/// Where a line goes on, what is joined goes on.
proof fn a_line_goes_on(
    before: Seq<Seq<char>>,
    line: Seq<char>,
    more: Seq<char>,
    after: Seq<Seq<char>>,
    separator: Seq<char>,
)
    ensures
        joined(before.push(line + more) + after, separator) == joined(before.push(line), separator)
            + joined(seq![more] + after, separator),
{
    let grown = seq![line + more] + after;
    let tail = seq![more] + after;
    assert(joined(grown, separator) =~= line + joined(tail, separator)) by {
        assert(grown.drop_first() =~= after);
        assert(tail.drop_first() =~= after);
    }
    assert(before.push(line + more) + after =~= before + grown);
    assert(before.push(line) =~= before + seq![line]);
    assert(joined(seq![line], separator) == line);
    if before.len() > 0 {
        joined_concat(before, grown, separator);
        joined_concat(before, seq![line], separator);
        assert(joined(before + grown, separator) =~= joined(before.push(line), separator) + joined(
            tail,
            separator,
        ));
    } else {
        assert(before + grown =~= grown);
        assert(before + seq![line] =~= seq![line]);
    }
}

/// The lines of a license with one more marker and a text behind it.
proof fn lines_with_a_marker(
    license: Seq<char>,
    expression: Seq<char>,
    text: Seq<char>,
    identifier: Seq<char>,
)
    requires
        !license.contains('\r') && !expression.contains('\r') && !text.contains('\r')
            && !identifier.contains('\r'),
        !expression.contains('\n') && !identifier.contains('\n'),
    ensures
        lines(license).len() > 0,
        lines(text).len() > 0,
        lines(license + identifier + expression + identifier + text) == lines(
            license,
        ).drop_last().push(
            lines(license).last() + identifier + expression + identifier + lines(text)[0],
        ) + lines(text).drop_first(),
{
    let marker = identifier + expression + identifier;
    let tail = marker + text;
    let whole = license + identifier + expression + identifier + text;
    assert(whole =~= license + tail);
    unified_plain(license);
    unified_plain(text);
    assert forall|i: int| 0 <= i < whole.len() implies whole[i] != '\r' by {
        if i < license.len() {
            assert(license.contains(license[i]));
        } else if i < license.len() + identifier.len() {
            assert(identifier.contains(identifier[i - license.len()]));
        } else if i < license.len() + identifier.len() + expression.len() {
            assert(expression.contains(expression[i - license.len() - identifier.len()]));
        } else if i < license.len() + marker.len() {
            let k = i - license.len() - identifier.len() - expression.len();
            assert(identifier.contains(identifier[k]));
        } else {
            assert(text.contains(text[i - license.len() - marker.len()]));
        }
    }
    unified_plain(whole);
    assert forall|i: int| 0 <= i < marker.len() implies marker[i] != '\n' by {
        if i < identifier.len() {
            assert(identifier.contains(identifier[i]));
        } else if i < identifier.len() + expression.len() {
            assert(expression.contains(expression[i - identifier.len()]));
        } else {
            assert(identifier.contains(identifier[i - identifier.len() - expression.len()]));
        }
    }
    pieces_not_empty(license, '\n');
    pieces_not_empty(text, '\n');
    one_piece(marker, '\n');
    pieces_append(marker, text, '\n');
    pieces_append(license, tail, '\n');
    let first = marker + pieces(text, '\n')[0];
    assert(pieces(tail, '\n') =~= seq![first] + pieces(text, '\n').drop_first());
    assert(lines(license).last() + first =~= lines(license).last() + identifier + expression
        + identifier + lines(text)[0]);
    assert(pieces(tail, '\n').drop_first() =~= lines(text).drop_first());
}

/// One more marker behind a license, and a text behind it, add the value for
/// the marker and the text to what is written, whatever stands before: the
/// value is the only one there is, or the next one, over all lines. It must be
/// there and be found by the expression of the marker. (Texts without carriage
/// returns.)
pub proof fn a_marker_adds_its_value(
    license: Seq<char>,
    expression: Seq<char>,
    text: Seq<char>,
    regex: RegexView,
    values: Seq<Seq<char>>,
    eol: Eol,
)
    requires
        regex.replacements == Some(values),
        regex.identifier.len() > 0,
        !license.contains('\r') && !expression.contains('\r') && !text.contains('\r')
            && !regex.identifier.contains('\r'),
        !expression.contains('\n') && !regex.identifier.contains('\n'),
        split(lines(license).last(), regex.identifier).len() % 2 == 1,
        ends_at_separator(
            split(lines(license).last(), regex.identifier).last(),
            regex.identifier,
        ),
        ends_at_separator(expression, regex.identifier),
        forall|i: int|
            0 <= i < lines(text).len() ==> !contains(#[trigger] lines(text)[i], regex.identifier),
    ensures
        replaced(
            license + regex.identifier + expression + regex.identifier + text,
            Some(regex),
            eol,
        ) == match replaced(license, Some(regex), eol) {
            Err(fault) => Err(fault),
            Ok(written) => {
                let count = markers_in(lines(license), regex.identifier);
                if values.len() != 1 && count >= values.len() {
                    Err(
                        Fault::Message(
                            "Too few replacement values passed. Found at least "@ + decimal(
                                count + 1,
                            ) + " regex values. Only have "@ + decimal(values.len())
                                + " replacements"@,
                        ),
                    )
                } else {
                    let value = values[if values.len() == 1 {
                        0
                    } else {
                        count as int
                    }];
                    match regex_says(expression, value) {
                        None => Err(Fault::Regex(expression)),
                        Some(false) => Err(
                            Fault::Message(
                                "Replacement value "@ + value
                                    + " does not match regex it is to replace: "@ + expression,
                            ),
                        ),
                        Some(true) => Ok(written + value + joined(lines(text), eol.chars())),
                    }
                }
            },
        },
{
    let id = regex.identifier;
    let whole = license + id + expression + id + text;
    lines_with_a_marker(license, expression, text, id);
    let list = lines(license);
    let behind = lines(text);
    let front = list.drop_last();
    let line = list.last();
    let tail = behind.drop_first();
    let grown = line + id + expression + id + behind[0];
    let parts = split(line, id);
    let more = parts.push(expression).push(behind[0]);
    joined_split(line, id);
    two_more_are_joined(parts, expression, behind[0], id);
    assert forall|i: int| 0 <= i < more.len() - 1 implies ends_at_separator(
        #[trigger] more[i],
        id,
    ) by {
        if i < parts.len() - 1 {
            assert(more[i] == parts[i]);
        } else if i == parts.len() - 1 {
            assert(more[i] == parts.last());
        }
    }
    assert(told_apart(more, id));
    split_of_joined(more, id);
    assert(split(grown, id) == more);
    assert(forall|i: int| 0 <= i < tail.len() ==> #[trigger] tail[i] == behind[i + 1]);
    unmarked_lines_stay(front.push(grown), tail, id, values);
    assert(lines(whole) == front.push(grown) + tail);
    assert(front.push(grown).drop_last() =~= front);
    values_used_by_lines(list, id, values);
    if let Ok((done, used)) = replaced_lines(front, id, values) {
        a_marker_in_a_line(parts, expression, behind[0], values, used);
        if let Ok((text_done, now)) = replaced_parts(parts, values, used) {
            assert(replaced_lines(list, id, values) == Ok::<(Seq<Seq<char>>, nat), Fault>(
                (done.push(text_done), now),
            ));
            if let Some(value) = marker_value(values, now) {
                if regex_says(expression, value) == Some(true) {
                    let line_done = text_done + value + behind[0];
                    assert(line_done =~= (text_done + value) + behind[0]);
                    a_line_goes_on(done, text_done + value, behind[0], tail, eol.chars());
                    a_line_goes_on(done, text_done, value, Seq::empty(), eol.chars());
                    assert(done.push(text_done + value) + Seq::<Seq<char>>::empty() =~= done.push(
                        text_done + value,
                    ));
                    assert(seq![value] + Seq::<Seq<char>>::empty() =~= seq![value]);
                    assert(joined(seq![value], eol.chars()) == value);
                    assert(seq![behind[0]] + tail =~= behind);
                }
            }
        }
    }
}

/// A line is plain text and markers by turns, and begins with plain text: plain
/// text stays, and a marker, closed or not, is replaced by its value.
pub proof fn parts_take_turns(
    parts: Seq<Seq<char>>,
    part: Seq<char>,
    values: Seq<Seq<char>>,
    used: nat,
    done: Seq<char>,
    now: nat,
    value: Seq<char>,
)
    requires
        replaced_parts(parts, values, used) == Ok::<(Seq<char>, nat), Fault>((done, now)),
    ensures
        parts.len() % 2 == 0 ==> replaced_parts(parts.push(part), values, used) == Ok::<
            (Seq<char>, nat),
            Fault,
        >((done + part, now)),
        parts.len() % 2 == 1 && values.len() == 1 && value == values[0] && regex_says(part, value)
            == Some(true) ==> replaced_parts(parts.push(part), values, used) == Ok::<
            (Seq<char>, nat),
            Fault,
        >((done + value, now)),
        parts.len() % 2 == 1 && values.len() > 1 && now < values.len() && value
            == values[now as int] && regex_says(part, value) == Some(true) ==> replaced_parts(
            parts.push(part),
            values,
            used,
        ) == Ok::<(Seq<char>, nat), Fault>((done + value, now + 1)),
{
    assert(parts.push(part).drop_last() =~= parts);
}

/// The only value there is stands for every marker, however many there are; of
/// several values each stands for one marker, in their order.
pub proof fn which_value_stands_for_a_marker(values: Seq<Seq<char>>, used: nat)
    ensures
        values.len() == 1 ==> marker_value(values, used) == Some(values[0]) && used_after(
            values,
            used,
        ) == used,
        values.len() != 1 && used < values.len() ==> marker_value(values, used) == Some(
            values[used as int],
        ) && used_after(values, used) == used + 1,
        values.len() != 1 && used >= values.len() ==> marker_value(values, used) is None,
{
}

/// Without values, a license is written as with an empty list of values.
pub proof fn no_values_are_an_empty_list(
    license: Seq<char>,
    identifier: Seq<char>,
    eol: Eol,
)
    ensures
        replaced(license, Some(RegexView { identifier, replacements: None }), eol) == replaced(
            license,
            Some(RegexView { identifier, replacements: Some(Seq::empty()) }),
            eol,
        ),
{
}

// ---- Files while markers are in use ----

/// While markers are in use, a marker that is open in a license or in a file is
/// an error in every mode, and that of the license comes first.
pub proof fn an_open_marker_is_an_error(
    config: ConfigView,
    regex: RegexView,
    mode: Mode,
    eol: Eol,
    contents: Seq<char>,
    license: Seq<char>,
)
    requires
        config.regex == Some(regex),
    ensures
        marker_fault(license, regex.identifier) matches Some(fault) ==> judged(
            config,
            mode,
            eol,
            contents,
            license,
        ) == Err::<VerdictView, Fault>(fault),
        marker_fault(license, regex.identifier) is None ==> (marker_fault(
            contents,
            regex.identifier,
        ) matches Some(fault) ==> judged(config, mode, eol, contents, license) == Err::<
            VerdictView,
            Fault,
        >(fault)),
{
}

/// While markers are in use, what is done with a file follows from whether the
/// pattern of the license is found in the file as it is compared: a check misses
/// it or not, adding writes the license with the values above the rest, and
/// neither adding where it is found nor removing where it is not does anything.
pub proof fn a_pattern_decides(
    config: ConfigView,
    regex: RegexView,
    eol: Eol,
    contents: Seq<char>,
    license: Seq<char>,
    pattern: Seq<char>,
    found: bool,
)
    requires
        config.regex == Some(regex),
        marker_fault(contents, regex.identifier) is None,
        license_pattern(license, config.trim_trailing_whitespace, Some(regex)) == Ok::<
            Seq<char>,
            Fault,
        >(pattern),
        regex_says(pattern, compared(contents, config.trim_trailing_whitespace)) == Some(found),
    ensures
        judged(config, Mode::Check, eol, contents, license) == Ok::<VerdictView, Fault>(
            if found {
                VerdictView::Nothing
            } else {
                VerdictView::Missing
            },
        ),
        found ==> judged(config, Mode::Add, eol, contents, license) == Ok::<VerdictView, Fault>(
            VerdictView::Nothing,
        ),
        !found ==> judged(config, Mode::Add, eol, contents, license) == match replaced(
            license,
            Some(regex),
            eol,
        ) {
            Ok(text) => Ok::<VerdictView, Fault>(
                VerdictView::Write(inserted(contents, text, eol)),
            ),
            Err(fault) => Err(fault),
        },
        !found ==> judged(config, Mode::Remove, eol, contents, license) == Ok::<
            VerdictView,
            Fault,
        >(VerdictView::Nothing),
{
}

/// Whether lines stand in a file from a place on that expressions match, line by
/// line, each from its start.
pub open spec fn matched_from(
    file: Seq<Seq<char>>,
    expressions: Seq<Seq<char>>,
    start: int,
) -> bool {
    &&& 0 <= start && start + expressions.len() <= file.len()
    &&& forall|i: int|
        0 <= i < expressions.len() ==> regex_says(
            seq!['^'] + #[trigger] expressions[i],
            file[start + i],
        ) == Some(true)
}

proof fn matched_lines_are_a_block(
    file: Seq<Seq<char>>,
    expressions: Seq<Seq<char>>,
    start: int,
)
    requires
        0 <= start && start + expressions.len() <= file.len(),
    ensures
        matched_from(file, expressions, start) == block_at(file, expressions, start),
{
    reveal_strlit("^");
    assert("^"@ =~= seq!['^']);
    if block_at(file, expressions, start) {
        assert forall|i: int| 0 <= i < expressions.len() implies regex_says(
            seq!['^'] + #[trigger] expressions[i],
            file[start + i],
        ) == Some(true) by {
            assert(line_matches(expressions[i], file[start + i]));
        }
    }
}

/// With or without markers, removing takes out the first run of lines that the
/// lines of the pattern match one by one, and leaves every other line. The place
/// of the run is returned.
pub proof fn what_is_removed_is_matched(
    config: ConfigView,
    eol: Eol,
    contents: Seq<char>,
    license: Seq<char>,
    pattern: Seq<char>,
    written: Seq<char>,
) -> (start: int)
    requires
        license_pattern(license, config.trim_trailing_whitespace, config.regex) == Ok::<
            Seq<char>,
            Fault,
        >(pattern),
        judged(config, Mode::Remove, eol, contents, license) == Ok::<VerdictView, Fault>(
            VerdictView::Write(written),
        ),
    ensures
        ({
            let file = lines(contents);
            let all = pieces(pattern, '\n');
            &&& matched_from(file, all, start)
            &&& forall|other: int|
                0 <= other < start ==> !#[trigger] matched_from(file, all, other)
            &&& written == joined(file.take(start) + file.skip(start + all.len()), eol.chars())
        }),
{
    let file = lines(contents);
    let all = pieces(pattern, '\n');
    first_block_is_first(file, all, 0);
    let start = first_block(file, all, 0)->0;
    matched_lines_are_a_block(file, all, start);
    assert forall|other: int| 0 <= other < start implies !#[trigger] matched_from(
        file,
        all,
        other,
    ) by {
        if other + all.len() <= file.len() {
            matched_lines_are_a_block(file, all, other);
        }
    }
    start
}

/// Without a run of lines that the lines of a pattern match, nothing is removed.
pub proof fn nothing_else_is_removed(contents: Seq<char>, pattern: Seq<char>, eol: Eol)
    ensures
        ({
            let file = lines(contents);
            let all = pieces(pattern, '\n');
            (forall|start: int| !#[trigger] matched_from(file, all, start)) ==> {
                &&& license_start(contents, pattern) is None
                &&& removed(contents, pattern, eol) == contents
            }
        }),
        ({
            let file = lines(contents);
            let all = pieces(pattern, '\n');
            forall|start: int|
                #[trigger] matched_from(file, all, start) ==> license_start(contents, pattern)
                    is Some
        }),
{
    let file = lines(contents);
    let all = pieces(pattern, '\n');
    first_block_is_first(file, all, 0);
    pieces_not_empty(pattern, '\n');
    if let Some(start) = license_start(contents, pattern) {
        matched_lines_are_a_block(file, all, start);
    }
    assert forall|start: int| #[trigger] matched_from(file, all, start) implies license_start(
        contents,
        pattern,
    ) is Some by {
        matched_lines_are_a_block(file, all, start);
    }
}

/// A license whose pattern is no regular expression is an error that names the
/// pattern, in every mode.
pub proof fn a_faulty_pattern_is_an_error(
    config: ConfigView,
    mode: Mode,
    eol: Eol,
    contents: Seq<char>,
    license: Seq<char>,
    pattern: Seq<char>,
)
    requires
        config.regex matches Some(regex) ==> marker_fault(contents, regex.identifier) is None,
        license_pattern(license, config.trim_trailing_whitespace, config.regex) == Ok::<
            Seq<char>,
            Fault,
        >(pattern),
        !regex_compiles(pattern),
    ensures
        judged(config, mode, eol, contents, license) == Err::<VerdictView, Fault>(
            Fault::Regex(pattern),
        ),
{
}

} // verus!
