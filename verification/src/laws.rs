//! What holds of several operations together.
use vstd::prelude::*;

use crate::config::{ConfigView, Mode, RegexView};
use crate::decide::{judged, VerdictView};
use crate::error::Fault;
use crate::license::{
    block_at, compared, compared_line, compared_lines, first_block, first_line_end,
    first_line_end_is_first, has_shebang, inserted, kept_after, license_pattern, license_start,
    line_matches, marker_fault, marker_values, parts_pattern, removed, replaced, replaced_lines,
    replaced_parts,
};
use crate::matcher::{
    anchored, anchored_finds_the_prefix, escaped, escaped_finds_the_text, regex_compiles,
};
use crate::text::{
    contains, find_is_first, joined, lines, pieces, pieces_not_empty, split, unified, Eol, Trim,
};
use crate::text_lemmas::{
    escaped_joined, escaped_occurs, joined_pieces, joined_stands, lines_concat, lines_of_joined,
    lines_push_return, one_line, pieces_hold_no_separator, pieces_of_joined, prefix_occurs,
    trimmed_end_is_prefix, trimmed_end_is_trimmed, unified_plain,
};

verus! {

// ---- The lines of a file that got a license ----

/// Whether a line feed behind the text would make a carriage return at its
/// end part of a line ending.
pub open spec fn joins_the_ending(text: Seq<char>, eol: Eol) -> bool {
    eol == Eol::Lf && text.len() > 0 && text.last() == '\r'
}

/// The lines that a license takes up in a file.
pub open spec fn own_lines(license: Seq<char>, eol: Eol) -> Seq<Seq<char>> {
    if joins_the_ending(license, eol) {
        lines(license.drop_last())
    } else {
        lines(license)
    }
}

/// The lines that stay above a license.
pub open spec fn lines_above(contents: Seq<char>) -> Seq<Seq<char>> {
    if !has_shebang(contents) {
        Seq::empty()
    } else {
        match first_line_end(contents) {
            Some(at) => seq![contents.take(at)],
            None => seq![contents],
        }
    }
}

/// The lines of a license and what follows it.
proof fn license_then_lines(license: Seq<char>, rest: Seq<char>, eol: Eol)
    ensures
        lines(license + eol.chars() + rest) == own_lines(license, eol) + lines(rest),
{
    if joins_the_ending(license, eol) {
        let front = license.drop_last();
        assert(license + eol.chars() + rest == front + Eol::CrLf.chars() + rest);
        lines_concat(front, Eol::CrLf, rest);
    } else {
        lines_concat(license, eol, rest);
    }
}

/// A file that got a license holds the lines that stay above it, the lines of
/// the license and the lines that come after, in this order.
pub proof fn inserted_lines(contents: Seq<char>, license: Seq<char>, eol: Eol)
    ensures
        lines(inserted(contents, license, eol)) == lines_above(contents) + own_lines(license, eol)
            + lines(kept_after(contents)),
{
    let after = kept_after(contents);
    let tail = license + eol.chars() + after;
    license_then_lines(license, after, eol);
    if has_shebang(contents) {
        first_line_end_is_first(contents);
        let first = match first_line_end(contents) {
            Some(at) => contents.take(at),
            None => contents,
        };
        assert(forall|i: int| 0 <= i < first.len() ==> first[i] != '\n' && first[i] != '\r');
        assert(!first.contains('\n'));
        one_line(first);
        assert(inserted(contents, license, eol) == first + eol.chars() + tail);
        lines_concat(first, eol, tail);
        assert(lines_above(contents) + own_lines(license, eol) + lines(after) == lines_above(
            contents,
        ) + (own_lines(license, eol) + lines(after)));
    } else {
        assert(inserted(contents, license, eol) == tail);
        assert(lines_above(contents) + own_lines(license, eol) + lines(after) == own_lines(
            license,
            eol,
        ) + lines(after));
    }
}

/// The lines that a license takes up compare as the license does, unless a
/// carriage return got lost and white space counts.
proof fn own_lines_compare(license: Seq<char>, eol: Eol, trim: bool)
    requires
        !(trim && joins_the_ending(license, eol)),
    ensures
        own_lines(license, eol).len() > 0,
        own_lines(license, eol).map_values(|line: Seq<char>| compared_line(line, trim))
            == compared_lines(license, trim),
{
    let own = own_lines(license, eol);
    let as_compared = own.map_values(|line: Seq<char>| compared_line(line, trim));
    if joins_the_ending(license, eol) {
        let front = license.drop_last();
        lines_push_return(front);
        assert(license == front.push('\r'));
        let all = compared_lines(license, trim);
        assert forall|i: int| 0 <= i < own.len() implies as_compared[i] == all[i] by {
            if i == own.len() - 1 {
                let old = own.last();
                assert(lines(license)[i] == old.push('\r'));
                assert(old.push('\r').drop_last() == old);
                assert(Trim::WhiteSpace.takes('\r'));
            }
        }
        assert(as_compared =~= all);
    } else {
        pieces_not_empty(unified(license), '\n');
    }
}

// ---- Adding, checking, removing ----

/// The license stands in the compared form of a file that got it.
proof fn inserted_is_found(contents: Seq<char>, license: Seq<char>, eol: Eol, trim: bool)
    requires
        !(trim && joins_the_ending(license, eol)),
    ensures
        contains(compared(inserted(contents, license, eol), trim), compared(license, trim)),
{
    let f = |line: Seq<char>| compared_line(line, trim);
    let above = lines_above(contents).map_values(f);
    let own = own_lines(license, eol).map_values(f);
    let below = lines(kept_after(contents)).map_values(f);
    inserted_lines(contents, license, eol);
    own_lines_compare(license, eol, trim);
    assert(compared_lines(inserted(contents, license, eol), trim) =~= above + own + below);
    joined_stands(above, own, below, seq!['\n']);
}

/// After a license was added to a file, a check finds it there and adding it
/// again changes nothing. (Without markers in use; and the license must not
/// end with a carriage return that the line feed behind it makes part of a
/// line ending, where trailing white space counts.)
pub proof fn added_license_is_found(
    config: ConfigView,
    eol: Eol,
    contents: Seq<char>,
    license: Seq<char>,
    written: Seq<char>,
)
    requires
        config.regex is None,
        !(config.trim_trailing_whitespace && joins_the_ending(license, eol)),
        judged(config, Mode::Add, eol, contents, license) == Ok::<VerdictView, Fault>(
            VerdictView::Write(written),
        ),
    ensures
        judged(config, Mode::Check, eol, written, license) == Ok::<
            VerdictView,
            Fault,
        >(VerdictView::Nothing),
        judged(config, Mode::Add, eol, written, license) == Ok::<VerdictView, Fault>(
            VerdictView::Nothing,
        ),
{
    let trim = config.trim_trailing_whitespace;
    assert(written == inserted(contents, license, eol));
    inserted_is_found(contents, license, eol, trim);
    escaped_finds_the_text(compared(license, trim), compared(written, trim));
}

/// The pattern of a license without markers, line by line: each line of the
/// license as it is compared, escaped.
proof fn pattern_lines(license: Seq<char>, trim: bool)
    ensures
        pieces(escaped(compared(license, trim)), '\n') == compared_lines(license, trim).map_values(
            |line: Seq<char>| escaped(line),
        ),
{
    let list = lines(license);
    let as_compared = compared_lines(license, trim);
    let patterns = as_compared.map_values(|line: Seq<char>| escaped(line));
    pieces_not_empty(unified(license), '\n');
    pieces_hold_no_separator(unified(license), '\n');
    assert forall|i: int| 0 <= i < patterns.len() implies !(#[trigger] patterns[i].contains(
        '\n',
    )) by {
        assert(!list[i].contains('\n'));
        if !trim {
            trimmed_end_is_prefix(list[i], Trim::WhiteSpace);
            prefix_occurs(as_compared[i], list[i], '\n');
        }
        escaped_occurs(as_compared[i]);
    }
    escaped_joined(as_compared);
    pieces_of_joined(patterns, '\n');
}

/// Whether each line of a license can be searched for: none is too long for a
/// regular expression.
pub open spec fn searchable(license: Seq<char>, trim: bool) -> bool {
    forall|i: int|
        0 <= i < compared_lines(license, trim).len() ==> regex_compiles(
            anchored(#[trigger] compared_lines(license, trim)[i]),
        )
}

/// Whether a first line that stays above a license passes for the license, as
/// the lines of a file stand.
pub open spec fn passes_for_license(
    contents: Seq<char>,
    written: Seq<char>,
    license: Seq<char>,
    trim: bool,
) -> bool {
    has_shebang(contents) && block_at(
        lines(written),
        pieces(escaped(compared(license, trim)), '\n'),
        0,
    )
}

/// The block of a license stands where it was added.
proof fn inserted_block(contents: Seq<char>, license: Seq<char>, eol: Eol, trim: bool)
    requires
        !(trim && joins_the_ending(license, eol)),
        searchable(license, trim),
    ensures
        block_at(
            lines(inserted(contents, license, eol)),
            pieces(escaped(compared(license, trim)), '\n'),
            lines_above(contents).len() as int,
        ),
{
    let file = lines(inserted(contents, license, eol));
    let patterns = pieces(escaped(compared(license, trim)), '\n');
    let own = own_lines(license, eol);
    let start = lines_above(contents).len() as int;
    inserted_lines(contents, license, eol);
    own_lines_compare(license, eol, trim);
    pattern_lines(license, trim);
    let as_compared = compared_lines(license, trim);
    assert(as_compared.len() == own.len());
    assert forall|offset: int| 0 <= offset < patterns.len() implies #[trigger] line_matches(
        patterns[offset],
        file[start + offset],
    ) by {
        let line = as_compared[offset];
        assert(file[start + offset] == own[offset]);
        assert(line == compared_line(own[offset], trim)) by {
            assert(own.map_values(|line: Seq<char>| compared_line(line, trim))[offset]
                == compared_line(own[offset], trim));
        }
        if !trim {
            trimmed_end_is_prefix(own[offset], Trim::WhiteSpace);
        } else {
            assert(own[offset].subrange(0, own[offset].len() as int) =~= own[offset]);
        }
        reveal_strlit("^");
        assert("^"@ + patterns[offset] =~= anchored(line));
        anchored_finds_the_prefix(line, own[offset]);
    }
}

/// Removing takes away what was inserted: it leaves the lines that stood above
/// and below the license, written with the line ending in use. (The license
/// must not end with a carriage return that the line feed behind it makes part
/// of a line ending, where trailing white space counts; each line of it must be
/// short enough to search for; and the line above it must not pass for it.)
pub proof fn inserted_license_is_removed(
    contents: Seq<char>,
    license: Seq<char>,
    eol: Eol,
    trim: bool,
)
    requires
        !(trim && joins_the_ending(license, eol)),
        searchable(license, trim),
        !passes_for_license(contents, inserted(contents, license, eol), license, trim),
    ensures
        ({
            let pattern = escaped(compared(license, trim));
            let written = inserted(contents, license, eol);
            &&& license_pattern(license, trim, None) == Ok::<Seq<char>, Fault>(pattern)
            &&& license_start(written, pattern) == Some(lines_above(contents).len() as int)
            &&& removed(written, pattern, eol) == joined(
                lines_above(contents) + lines(kept_after(contents)),
                eol.chars(),
            )
        }),
{
    let pattern = escaped(compared(license, trim));
    let written = inserted(contents, license, eol);
    inserted_block(contents, license, eol, trim);
    inserted_lines(contents, license, eol);
    own_lines_compare(license, eol, trim);
    pattern_lines(license, trim);
    let file = lines(written);
    let patterns = pieces(pattern, '\n');
    let above = lines_above(contents);
    let own = own_lines(license, eol);
    let below = lines(kept_after(contents));
    assert(patterns.len() == own.len());
    reveal_with_fuel(first_block, 2);
    assert(first_block(file, patterns, 0) == Some(above.len() as int));
    assert(file.take(above.len() as int) =~= above);
    assert(file.skip((above.len() + own.len()) as int) =~= below);
}

/// Removing takes away a license that was inserted at the top: it leaves the
/// lines of the file, written with the line ending in use.
pub proof fn license_inserted_at_the_top_is_removed(
    contents: Seq<char>,
    license: Seq<char>,
    eol: Eol,
    trim: bool,
)
    requires
        !has_shebang(contents),
        !(trim && joins_the_ending(license, eol)),
        searchable(license, trim),
    ensures
        license_pattern(license, trim, None) == Ok::<Seq<char>, Fault>(
            escaped(compared(license, trim)),
        ),
        removed(
            inserted(contents, license, eol),
            escaped(compared(license, trim)),
            eol,
        ) == joined(lines(contents), eol.chars()),
{
    inserted_license_is_removed(contents, license, eol, trim);
    assert(lines_above(contents) + lines(kept_after(contents)) =~= lines(contents));
}

/// After a license was added to a file, removing it takes the license out
/// again and leaves the lines that stood above and below it, written with the
/// line ending in use. (Without markers in use, and as for
/// `inserted_license_is_removed`.)
pub proof fn added_license_is_removed(
    config: ConfigView,
    eol: Eol,
    contents: Seq<char>,
    license: Seq<char>,
    written: Seq<char>,
)
    requires
        config.regex is None,
        !(config.trim_trailing_whitespace && joins_the_ending(license, eol)),
        judged(config, Mode::Add, eol, contents, license) == Ok::<VerdictView, Fault>(
            VerdictView::Write(written),
        ),
        searchable(license, config.trim_trailing_whitespace),
        !passes_for_license(contents, written, license, config.trim_trailing_whitespace),
    ensures
        judged(config, Mode::Remove, eol, written, license) == Ok::<VerdictView, Fault>(
            VerdictView::Write(
                joined(lines_above(contents) + lines(kept_after(contents)), eol.chars()),
            ),
        ),
{
    let trim = config.trim_trailing_whitespace;
    assert(written == inserted(contents, license, eol));
    inserted_is_found(contents, license, eol, trim);
    escaped_finds_the_text(compared(license, trim), compared(written, trim));
    inserted_license_is_removed(contents, license, eol, trim);
}

/// Whether each line ending of a text is the given one.
pub open spec fn written_with(text: Seq<char>, eol: Eol) -> bool {
    joined(lines(text), eol.chars()) == text
}

/// Whether a first line that stays above a license ends with a line feed.
pub open spec fn parts_at_a_line_feed(contents: Seq<char>) -> bool {
    has_shebang(contents) ==> (first_line_end(contents) matches Some(at) && (contents[at] == '\n'
        || seq!['\r', '\n'].is_prefix_of(contents.skip(at))))
}

/// The lines above and below the place of a license are the lines of the
/// file, where a first line that stays above ends with a line feed.
proof fn parted_lines(contents: Seq<char>)
    requires
        parts_at_a_line_feed(contents),
    ensures
        lines_above(contents) + lines(kept_after(contents)) == lines(contents),
{
    let after = kept_after(contents);
    if has_shebang(contents) {
        first_line_end_is_first(contents);
        let at = first_line_end(contents)->0;
        let first = contents.take(at);
        assert(forall|i: int| 0 <= i < first.len() ==> first[i] != '\n' && first[i] != '\r');
        assert(!first.contains('\n'));
        one_line(first);
        let rest = contents.skip(at);
        if seq!['\r', '\n'].is_prefix_of(rest) {
            assert(rest.subrange(0, 2) == seq!['\r', '\n']);
            assert(rest[0] == rest.subrange(0, 2)[0] && rest[1] == rest.subrange(0, 2)[1]);
            assert(contents =~= first + Eol::CrLf.chars() + after);
            lines_concat(first, Eol::CrLf, after);
        } else {
            assert(contents =~= first + Eol::Lf.chars() + after);
            lines_concat(first, Eol::Lf, after);
        }
    } else {
        assert(lines_above(contents) + lines(after) =~= lines(contents));
    }
}

/// After a license was added to a file that is written with the line ending
/// in use, removing it gives back the file as it was. (As for
/// `added_license_is_removed`; and a first line that stays above the license
/// must end with a line feed.)
pub proof fn added_and_removed_is_unchanged(
    config: ConfigView,
    eol: Eol,
    contents: Seq<char>,
    license: Seq<char>,
    written: Seq<char>,
)
    requires
        config.regex is None,
        !(config.trim_trailing_whitespace && joins_the_ending(license, eol)),
        judged(config, Mode::Add, eol, contents, license) == Ok::<VerdictView, Fault>(
            VerdictView::Write(written),
        ),
        searchable(license, config.trim_trailing_whitespace),
        !passes_for_license(contents, written, license, config.trim_trailing_whitespace),
        written_with(contents, eol),
        parts_at_a_line_feed(contents),
    ensures
        judged(config, Mode::Remove, eol, written, license) == Ok::<VerdictView, Fault>(
            VerdictView::Write(contents),
        ),
{
    added_license_is_removed(config, eol, contents, license, written);
    parted_lines(contents);
}

/// The lines of a text, joined by line feeds, are the text with each pair of
/// carriage return and line feed made one line feed.
pub proof fn joined_lines(text: Seq<char>)
    ensures
        joined(lines(text), seq!['\n']) == unified(text),
{
    joined_pieces(unified(text), '\n');
}

/// A text without carriage returns is written with line feeds.
pub proof fn plain_text_is_written_with_line_feeds(text: Seq<char>)
    requires
        !text.contains('\r'),
    ensures
        written_with(text, Eol::Lf),
{
    joined_lines(text);
    unified_plain(text);
}

/// A text compares as its compared form does, where trailing white space is
/// left out.
pub proof fn compared_form_is_stable(text: Seq<char>)
    ensures
        compared(compared(text, false), false) == compared(text, false),
{
    let list = lines(text);
    let once = compared_lines(text, false);
    pieces_not_empty(unified(text), '\n');
    pieces_hold_no_separator(unified(text), '\n');
    assert forall|i: int| 0 <= i < once.len() implies !((#[trigger] once[i]).contains('\n'))
        && compared_line(once[i], false) == once[i] && !(once[i].len() > 0 && once[i].last()
        == '\r') by {
        assert(!list[i].contains('\n'));
        trimmed_end_is_prefix(list[i], Trim::WhiteSpace);
        prefix_occurs(once[i], list[i], '\n');
        trimmed_end_is_trimmed(list[i]);
    }
    lines_of_joined(once, Eol::Lf);
    assert(compared_lines(compared(text, false), false) =~= once);
}

/// What a check says of a file does not depend on its line endings:
/// two files whose lines are the same are both found to hold the license, or
/// both found to miss it. (Without markers in use.)
pub proof fn line_endings_do_not_matter(
    config: ConfigView,
    eol: Eol,
    left: Seq<char>,
    right: Seq<char>,
    license: Seq<char>,
)
    requires
        config.regex is None,
        lines(left) == lines(right),
    ensures
        judged(config, Mode::Check, eol, left, license) == judged(
            config,
            Mode::Check,
            eol,
            right,
            license,
        ),
{
}

// ---- Markers ----

/// Whether the identifier of markers occurs nowhere in a license.
pub open spec fn unmarked(license: Seq<char>, trim: bool, identifier: Seq<char>) -> bool {
    &&& identifier.len() > 0
    &&& !contains(license, identifier)
    &&& !contains(compared(license, trim), identifier)
    &&& forall|i: int|
        0 <= i < lines(license).len() ==> !contains(#[trigger] lines(license)[i], identifier)
}

proof fn split_unmarked(text: Seq<char>, identifier: Seq<char>)
    requires
        identifier.len() > 0,
        !contains(text, identifier),
    ensures
        split(text, identifier) == seq![text],
{
    find_is_first(text, identifier);
}

proof fn replaced_unmarked_lines(
    list: Seq<Seq<char>>,
    identifier: Seq<char>,
    values: Seq<Seq<char>>,
)
    requires
        identifier.len() > 0,
        forall|i: int| 0 <= i < list.len() ==> !contains(#[trigger] list[i], identifier),
    ensures
        replaced_lines(list, identifier, values) == Ok::<(Seq<Seq<char>>, nat), Fault>((list, 0)),
    decreases list.len(),
{
    if list.len() > 0 {
        let front = list.drop_last();
        assert forall|i: int| 0 <= i < front.len() implies !contains(
            #[trigger] front[i],
            identifier,
        ) by {
            assert(front[i] == list[i]);
        }
        replaced_unmarked_lines(front, identifier, values);
        let line = list.last();
        assert(line == list[list.len() - 1]);
        split_unmarked(line, identifier);
        let parts = seq![line];
        assert(parts.drop_last() == Seq::<Seq<char>>::empty());
        reveal_with_fuel(replaced_parts, 2);
        assert(Seq::<char>::empty() + line =~= line);
        assert(front.push(line) =~= list);
    } else {
        assert(list =~= Seq::<Seq<char>>::empty());
    }
}

/// A license without markers is searched for as if none were in use, and is
/// written line by line as it stands.
pub proof fn unmarked_license_stands_for_itself(
    license: Seq<char>,
    trim: bool,
    regex: RegexView,
    eol: Eol,
)
    requires
        unmarked(license, trim, regex.identifier),
    ensures
        license_pattern(license, trim, Some(regex)) == license_pattern(license, trim, None),
        replaced(license, Some(regex), eol) == Ok::<Seq<char>, Fault>(
            joined(lines(license), eol.chars()),
        ),
{
    let normal = compared(license, trim);
    split_unmarked(license, regex.identifier);
    split_unmarked(normal, regex.identifier);
    let parts = seq![normal];
    assert(parts.drop_last() == Seq::<Seq<char>>::empty());
    reveal_with_fuel(parts_pattern, 2);
    assert(parts_pattern(parts) =~= escaped(normal));
    replaced_unmarked_lines(lines(license), regex.identifier, marker_values(regex));
}

/// After a license without markers was added to a file while markers are in
/// use, a check finds it there and adding it again changes nothing. (The file
/// that was written must hold no open marker, and no line of the license may
/// end with a carriage return that a line feed makes part of a line ending.)
pub proof fn added_unmarked_license_is_found(
    config: ConfigView,
    regex: RegexView,
    eol: Eol,
    contents: Seq<char>,
    license: Seq<char>,
    written: Seq<char>,
)
    requires
        config.regex == Some(regex),
        unmarked(license, config.trim_trailing_whitespace, regex.identifier),
        forall|i: int|
            0 <= i < lines(license).len() ==> !joins_the_ending(#[trigger] lines(license)[i], eol),
        judged(config, Mode::Add, eol, contents, license) == Ok::<VerdictView, Fault>(
            VerdictView::Write(written),
        ),
        marker_fault(written, regex.identifier) is None,
    ensures
        judged(config, Mode::Check, eol, written, license) == Ok::<VerdictView, Fault>(
            VerdictView::Nothing,
        ),
        judged(config, Mode::Add, eol, written, license) == Ok::<VerdictView, Fault>(
            VerdictView::Nothing,
        ),
{
    let trim = config.trim_trailing_whitespace;
    let text = joined(lines(license), eol.chars());
    unmarked_license_stands_for_itself(license, trim, regex, eol);
    assert(written == inserted(contents, text, eol));
    pieces_not_empty(unified(license), '\n');
    pieces_hold_no_separator(unified(license), '\n');
    lines_of_joined(lines(license), eol);
    assert(!joins_the_ending(text, eol)) by {
        if joins_the_ending(text, eol) {
            let front = text.drop_last();
            assert(text == front.push('\r'));
            lines_push_return(front);
            let list = lines(license);
            assert(list[list.len() - 1].last() == '\r');
            assert(!joins_the_ending(list[list.len() - 1], eol));
        }
    }
    inserted_is_found(contents, text, eol, trim);
    assert(compared(text, trim) == compared(license, trim));
    escaped_finds_the_text(compared(license, trim), compared(written, trim));
}

} // verus!
