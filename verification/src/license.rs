//! Finding, adding and removing the license in the text of one file.
use vstd::prelude::*;

use crate::config::{regex_view, RegexConfig, RegexView};
use crate::error::{outcome, text_outcome, AppError, Fault};
use crate::matcher::{escaped, regex_says, regex_search};
use crate::text::{
    decimal, decimal_string, join, joined, lines, part_at, pieces, range_string, split,
    split_char, split_lines, split_text, starts_with, texts, to_chars, trim_end, trimmed_end, Eol,
    Trim,
};

verus! {

// ---- Normal form ----

/// What is wrong with the markers of a text: the identifier is empty, or a
/// marker is opened and not closed.
pub open spec fn marker_fault(text: Seq<char>, identifier: Seq<char>) -> Option<Fault> {
    if identifier.len() == 0 {
        Some(Fault::Message("Regex identifier cannot be empty"@))
    } else if split(text, identifier).len() % 2 == 0 {
        Some(
            Fault::Message(
                "Odd number of regex identifiers found. One must be missing its close"@,
            ),
        )
    } else {
        None
    }
}

/// Checks the markers of a text.
pub fn validate_markers(text: &str, identifier: &str) -> (result: Result<(), AppError>)
    ensures
        outcome(result) == match marker_fault(text@, identifier@) {
            Some(fault) => Err::<(), Fault>(fault),
            None => Ok(()),
        },
{
    if identifier.is_empty() {
        return Err(AppError::Message("Regex identifier cannot be empty".to_owned()));
    }
    let parts = split_text(text, identifier);
    assert(texts(parts@).len() == parts@.len());
    if parts.len() % 2 == 0 {
        return Err(
            AppError::Message(
                "Odd number of regex identifiers found. One must be missing its close".to_owned(),
            ),
        );
    }
    Ok(())
}

/// A line as it is compared: without trailing white space, unless generated
/// lines are trimmed anyway.
pub open spec fn compared_line(line: Seq<char>, trim_trailing_whitespace: bool) -> Seq<char> {
    if trim_trailing_whitespace {
        line
    } else {
        trimmed_end(line, Trim::WhiteSpace)
    }
}

/// The lines of a text as they are compared.
pub open spec fn compared_lines(text: Seq<char>, trim_trailing_whitespace: bool) -> Seq<Seq<char>> {
    lines(text).map_values(|line: Seq<char>| compared_line(line, trim_trailing_whitespace))
}

/// A text as it is compared: its lines as they are compared, with a line feed
/// between them.
pub open spec fn compared(text: Seq<char>, trim_trailing_whitespace: bool) -> Seq<char> {
    joined(compared_lines(text, trim_trailing_whitespace), seq!['\n'])
}

/// A text as it is compared, or what is wrong with its markers.
pub open spec fn checked(
    text: Seq<char>,
    trim_trailing_whitespace: bool,
    regex: Option<RegexView>,
) -> Result<Seq<char>, Fault> {
    match regex {
        Some(config) => match marker_fault(text, config.identifier) {
            Some(fault) => Err(fault),
            None => Ok(compared(text, trim_trailing_whitespace)),
        },
        None => Ok(compared(text, trim_trailing_whitespace)),
    }
}

/// Brings a text into the form in which texts are compared.
pub fn normalize_for_check(
    text: &str,
    trim_trailing_whitespace: bool,
    regex_config: Option<&RegexConfig>,
) -> (result: Result<String, AppError>)
    ensures
        text_outcome(result) == checked(
            text@,
            trim_trailing_whitespace,
            regex_view(regex_config),
        ),
{
    if let Some(config) = regex_config {
        match validate_markers(text, config.identifier.as_str()) {
            Ok(_) => {},
            Err(error) => return Err(error),
        }
    }
    let list = split_lines(text);
    let mut out: Vec<String> = Vec::new();
    let mut at: usize = 0;
    let ghost all = compared_lines(text@, trim_trailing_whitespace);
    while at < list.len()
        invariant
            at <= list@.len(),
            texts(list@) == lines(text@),
            all == compared_lines(text@, trim_trailing_whitespace),
            texts(out@) == all.take(at as int),
        decreases list@.len() - at,
    {
        let ghost before = texts(out@);
        assert(lines(text@)[at as int] == list@[at as int]@);
        let line = if trim_trailing_whitespace {
            list[at].clone()
        } else {
            trim_end(list[at].as_str(), Trim::WhiteSpace)
        };
        assert(line@ == all[at as int]);
        out.push(line);
        at = at + 1;
        assert(texts(out@) == before.push(all[at - 1]));
        assert(all.take(at as int) == before.push(all[at - 1]));
    }
    assert(all.take(at as int) == all);
    proof {
        reveal_strlit("\n");
        assert("\n"@ == seq!['\n']);
    }
    Ok(join(&out, "\n"))
}

// ---- The pattern of a license ----

/// The parts of a license as one regular expression: every other part, from
/// the first on, is plain text and is escaped; those between are regular
/// expressions.
pub open spec fn parts_pattern(parts: Seq<Seq<char>>) -> Seq<char>
    decreases parts.len(),
{
    if parts.len() == 0 {
        Seq::empty()
    } else {
        let index = parts.len() - 1;
        parts_pattern(parts.drop_last()) + (if index % 2 == 0 {
            escaped(parts.last())
        } else {
            parts.last()
        })
    }
}

/// The regular expression by which a license is found.
pub open spec fn license_pattern(
    text: Seq<char>,
    trim_trailing_whitespace: bool,
    regex: Option<RegexView>,
) -> Result<Seq<char>, Fault> {
    match checked(text, trim_trailing_whitespace, regex) {
        Err(fault) => Err(fault),
        Ok(normal) => match regex {
            Some(config) => Ok(parts_pattern(split(normal, config.identifier))),
            None => Ok(escaped(normal)),
        },
    }
}

/// Builds the regular expression by which a license is found.
pub fn build_match_pattern(
    text: &str,
    trim_trailing_whitespace: bool,
    regex_config: Option<&RegexConfig>,
) -> (result: Result<String, AppError>)
    ensures
        text_outcome(result) == license_pattern(
            text@,
            trim_trailing_whitespace,
            regex_view(regex_config),
        ),
{
    let normalized = match normalize_for_check(text, trim_trailing_whitespace, regex_config) {
        Ok(normalized) => normalized,
        Err(error) => return Err(error),
    };
    if let Some(config) = regex_config {
        let parts = split_text(normalized.as_str(), config.identifier.as_str());
        let mut pattern = String::new();
        let mut index: usize = 0;
        while index < parts.len()
            invariant
                index <= parts@.len(),
                pattern@ == parts_pattern(texts(parts@).take(index as int)),
            decreases parts@.len() - index,
        {
            assert(texts(parts@).take(index + 1).drop_last() == texts(parts@).take(index as int));
            assert(texts(parts@).take(index + 1).last() == parts@[index as int]@);
            if index % 2 == 0 {
                pattern.append(regex::escape(parts[index].as_str()).as_str());
            } else {
                pattern.append(parts[index].as_str());
            }
            index = index + 1;
        }
        assert(texts(parts@).take(index as int) == texts(parts@));
        Ok(pattern)
    } else {
        Ok(regex::escape(normalized.as_str()))
    }
}

// ---- Replacing markers ----

/// The value for a marker when `used` values have been used: the only value
/// there is, or the next one.
pub open spec fn marker_value(values: Seq<Seq<char>>, used: nat) -> Option<Seq<char>> {
    if values.len() == 1 {
        Some(values[0])
    } else if used < values.len() {
        Some(values[used as int])
    } else {
        None
    }
}

/// How many values have been used after one more marker.
pub open spec fn used_after(values: Seq<Seq<char>>, used: nat) -> nat {
    if values.len() == 1 {
        used
    } else {
        used + 1
    }
}

/// The complaint that the values ran out.
pub open spec fn too_few(values: Seq<Seq<char>>, used: nat) -> Fault {
    Fault::Message(
        "Too few replacement values passed. Found at least "@ + decimal(used + 1)
            + " regex values. Only have "@ + decimal(values.len()) + " replacements"@,
    )
}

/// The complaint that a value does not match its marker.
pub open spec fn no_match(part: Seq<char>, value: Seq<char>) -> Fault {
    Fault::Message(
        "Replacement value "@ + value + " does not match regex it is to replace: "@ + part,
    )
}

/// What the search for the regular expression of a marker in its value means:
/// no answer is a faulty expression, and a value without a match is refused.
pub open spec fn value_verdict(
    part: Seq<char>,
    value: Seq<char>,
    found: Option<bool>,
) -> Result<(), Fault> {
    match found {
        None => Err(Fault::Regex(part)),
        Some(false) => Err(no_match(part, value)),
        Some(true) => Ok(()),
    }
}

/// The parts of a line with a value in place of each marker, and how many
/// values have been used; or the first fault.
pub open spec fn replaced_parts(
    parts: Seq<Seq<char>>,
    values: Seq<Seq<char>>,
    used: nat,
) -> Result<(Seq<char>, nat), Fault>
    decreases parts.len(),
{
    if parts.len() == 0 {
        Ok((Seq::empty(), used))
    } else {
        let part = parts.last();
        match replaced_parts(parts.drop_last(), values, used) {
            Err(fault) => Err(fault),
            Ok((text, now)) => if (parts.len() - 1) % 2 == 0 {
                Ok((text + part, now))
            } else {
                match marker_value(values, now) {
                    None => Err(too_few(values, now)),
                    Some(value) => match value_verdict(part, value, regex_says(part, value)) {
                        Err(fault) => Err(fault),
                        Ok(_) => Ok((text + value, used_after(values, now))),
                    },
                }
            },
        }
    }
}

/// The lines with a value in place of each marker, and how many values have
/// been used; or the first fault. A marker opens and closes within a line.
pub open spec fn replaced_lines(
    list: Seq<Seq<char>>,
    identifier: Seq<char>,
    values: Seq<Seq<char>>,
) -> Result<(Seq<Seq<char>>, nat), Fault>
    decreases list.len(),
{
    if list.len() == 0 {
        Ok((Seq::empty(), 0))
    } else {
        match replaced_lines(list.drop_last(), identifier, values) {
            Err(fault) => Err(fault),
            Ok((done, used)) => match replaced_parts(split(list.last(), identifier), values, used) {
                Err(fault) => Err(fault),
                Ok((line, now)) => Ok((done.push(line), now)),
            },
        }
    }
}

/// The values that are written in place of the markers.
pub open spec fn marker_values(config: RegexView) -> Seq<Seq<char>> {
    match config.replacements {
        Some(values) => values,
        None => Seq::empty(),
    }
}

/// A license with a value in place of each marker, or the first fault.
pub open spec fn replaced(text: Seq<char>, regex: Option<RegexView>, eol: Eol) -> Result<
    Seq<char>,
    Fault,
> {
    match regex {
        None => Ok(text),
        Some(config) => match replaced_lines(
            lines(text),
            config.identifier,
            marker_values(config),
        ) {
            Err(fault) => Err(fault),
            Ok((list, _)) => Ok(joined(list, eol.chars())),
        },
    }
}

/// Picks the value for the next marker.
pub fn pick_value(values: &Vec<String>, used: usize) -> (result: Result<String, AppError>)
    ensures
        text_outcome(result) == match marker_value(texts(values@), used as nat) {
            Some(value) => Ok::<Seq<char>, Fault>(value),
            None => Err(too_few(texts(values@), used as nat)),
        },
{
    if values.len() == 1 {
        return Ok(values[0].clone());
    }
    if used < values.len() {
        return Ok(values[used].clone());
    }
    Err(
        AppError::Message(
            "Too few replacement values passed. Found at least ".to_owned().concat(
                decimal_string(used as u128 + 1).as_str(),
            ).concat(" regex values. Only have ").concat(
                decimal_string(values.len() as u128).as_str(),
            ).concat(" replacements"),
        ),
    )
}

/// Accepts or refuses the value for a marker, from what the search for the
/// regular expression of the marker in the value gave.
pub fn accept_value(part: &str, value: &str, found: Result<bool, regex::Error>) -> (result: Result<
    (),
    AppError,
>)
    ensures
        outcome(result) == value_verdict(
            part@,
            value@,
            match found {
                Ok(found) => Some(found),
                Err(_) => None,
            },
        ),
        found matches Err(error) ==> result matches Err(AppError::Regex { source, .. }) && source
            == error,
{
    match found {
        Ok(true) => Ok(()),
        Ok(false) => Err(
            AppError::Message(
                "Replacement value ".to_owned().concat(value).concat(
                    " does not match regex it is to replace: ",
                ).concat(part),
            ),
        ),
        Err(source) => Err(AppError::Regex { pattern: part.to_owned(), source }),
    }
}

/// A fault in the first parts is the fault of all of them.
proof fn parts_fault_stays(
    parts: Seq<Seq<char>>,
    values: Seq<Seq<char>>,
    used: nat,
    count: int,
)
    requires
        0 <= count <= parts.len(),
        replaced_parts(parts.take(count), values, used) is Err,
    ensures
        replaced_parts(parts, values, used) == replaced_parts(parts.take(count), values, used),
    decreases parts.len(),
{
    if count == parts.len() {
        assert(parts.take(count) == parts);
    } else {
        assert(parts.drop_last().take(count) == parts.take(count));
        parts_fault_stays(parts.drop_last(), values, used, count);
    }
}

/// A fault in the first lines is the fault of all of them.
proof fn lines_fault_stays(
    list: Seq<Seq<char>>,
    identifier: Seq<char>,
    values: Seq<Seq<char>>,
    count: int,
)
    requires
        0 <= count <= list.len(),
        replaced_lines(list.take(count), identifier, values) is Err,
    ensures
        replaced_lines(list, identifier, values) == replaced_lines(
            list.take(count),
            identifier,
            values,
        ),
    decreases list.len(),
{
    if count == list.len() {
        assert(list.take(count) == list);
    } else {
        assert(list.drop_last().take(count) == list.take(count));
        lines_fault_stays(list.drop_last(), identifier, values, count);
    }
}

/// Writes a value in place of each marker of a line.
fn replace_line(line: &str, identifier: &str, values: &Vec<String>, used: usize) -> (result: Result<
    (String, usize),
    AppError,
>)
    requires
        used <= values@.len(),
    ensures
        match result {
            Ok((text, now)) => now <= values@.len() && replaced_parts(
                split(line@, identifier@),
                texts(values@),
                used as nat,
            ) == Ok::<(Seq<char>, nat), Fault>((text@, now as nat)),
            Err(error) => replaced_parts(split(line@, identifier@), texts(values@), used as nat)
                == Err::<(Seq<char>, nat), Fault>(error@),
        },
{
    let parts = split_text(line, identifier);
    let ghost all = texts(parts@);
    let ghost given = texts(values@);
    let mut text = String::new();
    let mut now: usize = used;
    let mut index: usize = 0;
    while index < parts.len()
        invariant
            index <= parts@.len(),
            used <= values@.len(),
            now <= values@.len(),
            all == texts(parts@),
            all == split(line@, identifier@),
            given == texts(values@),
            replaced_parts(all.take(index as int), given, used as nat) == Ok::<
                (Seq<char>, nat),
                Fault,
            >((text@, now as nat)),
        decreases parts@.len() - index,
    {
        let ghost here = all.take(index + 1);
        assert(here.drop_last() == all.take(index as int));
        assert(here.last() == parts@[index as int]@);
        if index % 2 == 0 {
            text.append(parts[index].as_str());
        } else {
            let value = match pick_value(values, now) {
                Ok(value) => value,
                Err(error) => {
                    proof {
                        parts_fault_stays(all, given, used as nat, index + 1);
                    }
                    return Err(error);
                },
            };
            let found = regex_search(parts[index].as_str(), value.as_str());
            match accept_value(parts[index].as_str(), value.as_str(), found) {
                Ok(_) => {},
                Err(error) => {
                    proof {
                        parts_fault_stays(all, given, used as nat, index + 1);
                    }
                    return Err(error);
                },
            }
            text.append(value.as_str());
            if values.len() != 1 {
                now = now + 1;
            }
        }
        index = index + 1;
    }
    assert(all.take(index as int) == all);
    Ok((text, now))
}

/// Writes a value in place of each marker of a license.
pub fn apply_replacements(text: &str, regex_config: Option<&RegexConfig>, eol: Eol) -> (result:
    Result<String, AppError>)
    ensures
        text_outcome(result) == replaced(text@, regex_view(regex_config), eol),
{
    let config = match regex_config {
        Some(config) => config,
        None => return Ok(text.to_owned()),
    };
    let none: Vec<String> = Vec::new();
    let values = match &config.replacements {
        Some(values) => values,
        None => &none,
    };
    assert(texts(values@) =~= marker_values(config@));
    let list = split_lines(text);
    let ghost all = texts(list@);
    let ghost given = texts(values@);
    let mut done: Vec<String> = Vec::new();
    let mut used: usize = 0;
    let mut at: usize = 0;
    assert(texts(done@) =~= Seq::<Seq<char>>::empty());
    while at < list.len()
        invariant
            at <= list@.len(),
            used <= values@.len(),
            regex_config == Some(config),
            all == texts(list@),
            all == lines(text@),
            given == texts(values@),
            given == marker_values(config@),
            replaced_lines(all.take(at as int), config.identifier@, given) == Ok::<
                (Seq<Seq<char>>, nat),
                Fault,
            >((texts(done@), used as nat)),
        decreases list@.len() - at,
    {
        let ghost here = all.take(at + 1);
        let ghost before = texts(done@);
        assert(here.drop_last() == all.take(at as int));
        assert(here.last() == list@[at as int]@);
        match replace_line(list[at].as_str(), config.identifier.as_str(), values, used) {
            Ok((line, now)) => {
                let ghost line_text = line@;
                done.push(line);
                assert(texts(done@) == before.push(line_text));
                used = now;
            },
            Err(error) => {
                proof {
                    lines_fault_stays(all, config.identifier@, given, at + 1);
                }
                return Err(error);
            },
        }
        at = at + 1;
    }
    assert(all.take(at as int) == all);
    Ok(join(&done, eol.as_str()))
}

// ---- Adding ----

/// The index of the first carriage return or line feed.
pub open spec fn first_line_end(text: Seq<char>) -> Option<int>
    decreases text.len(),
{
    if text.len() == 0 {
        None
    } else if text[0] == '\n' || text[0] == '\r' {
        Some(0)
    } else {
        match first_line_end(text.drop_first()) {
            Some(at) => Some(at + 1),
            None => None,
        }
    }
}

/// Whether a text starts with `#!`.
pub open spec fn has_shebang(text: Seq<char>) -> bool {
    seq!['#', '!'].is_prefix_of(text)
}

/// What stands before the license when it is added: a first line that starts
/// with `#!`, and a line ending.
pub open spec fn kept_before(contents: Seq<char>, eol: Eol) -> Seq<char> {
    if !has_shebang(contents) {
        Seq::empty()
    } else {
        match first_line_end(contents) {
            Some(at) => contents.take(at) + eol.chars(),
            None => contents + eol.chars(),
        }
    }
}

/// What stands after the license when it is added: the rest of the file.
pub open spec fn kept_after(contents: Seq<char>) -> Seq<char> {
    if !has_shebang(contents) {
        contents
    } else {
        match first_line_end(contents) {
            Some(at) => contents.skip(
                if seq!['\r', '\n'].is_prefix_of(contents.skip(at)) {
                    at + 2
                } else {
                    at + 1
                },
            ),
            None => Seq::empty(),
        }
    }
}

/// A file with the license added: at the top, or below a first line that
/// starts with `#!`.
pub open spec fn inserted(contents: Seq<char>, license: Seq<char>, eol: Eol) -> Seq<char> {
    kept_before(contents, eol) + license + eol.chars() + kept_after(contents)
}

/// The index of a line end lies in the text, and is the first of its kind.
pub proof fn first_line_end_is_first(text: Seq<char>)
    ensures
        match first_line_end(text) {
            Some(at) => 0 <= at < text.len() && (text[at] == '\n' || text[at] == '\r') && forall|
                i: int,
            |
                0 <= i < at ==> text[i] != '\n' && text[i] != '\r',
            None => forall|i: int| 0 <= i < text.len() ==> text[i] != '\n' && text[i] != '\r',
        },
    decreases text.len(),
{
    if text.len() > 0 && text[0] != '\n' && text[0] != '\r' {
        let rest = text.drop_first();
        first_line_end_is_first(rest);
        assert forall|i: int| 0 < i < text.len() implies text[i] == rest[i - 1] by {}
    }
}

/// Finds the first carriage return or line feed.
fn find_line_end(chars: &Vec<char>) -> (found: Option<usize>)
    ensures
        match (found, first_line_end(chars@)) {
            (Some(at), Some(first)) => at == first && at < chars@.len(),
            (None, None) => true,
            _ => false,
        },
{
    let mut at: usize = 0;
    assert(chars@.skip(0) == chars@);
    while at < chars.len()
        invariant
            at <= chars@.len(),
            match (first_line_end(chars@), first_line_end(chars@.skip(at as int))) {
                (Some(first), Some(offset)) => first == at + offset,
                (None, None) => true,
                _ => false,
            },
        decreases chars@.len() - at,
    {
        if chars[at] == '\n' || chars[at] == '\r' {
            return Some(at);
        }
        assert(chars@.skip(at as int).drop_first() == chars@.skip(at + 1));
        at = at + 1;
    }
    None
}

/// Adds a license to the text of a file.
pub fn insert_license(contents: &str, license: &str, eol: Eol) -> (text: String)
    ensures
        text@ == inserted(contents@, license@, eol),
{
    proof {
        reveal_strlit("#!");
        reveal_strlit("\r\n");
        assert("#!"@ == seq!['#', '!']);
        assert("\r\n"@ == seq!['\r', '\n']);
    }
    if !starts_with(contents, "#!") {
        let text = license.to_owned().concat(eol.as_str()).concat(contents);
        assert(text@ =~= inserted(contents@, license@, eol));
        return text;
    }
    let chars = to_chars(contents);
    let total: usize = chars.len();
    match find_line_end(&chars) {
        Some(first) => {
            let shebang = range_string(&chars, 0, first);
            assert(shebang@ == contents@.take(first as int));
            let pair = to_chars("\r\n");
            let skipped: usize = if part_at(&chars, &pair, first) {
                first + 2
            } else {
                first + 1
            };
            let rest = range_string(&chars, skipped, total);
            assert(rest@ == contents@.skip(skipped as int));
            shebang.concat(eol.as_str()).concat(license).concat(eol.as_str()).concat(rest.as_str())
        },
        None => {
            let text = contents.to_owned().concat(eol.as_str()).concat(license).concat(
                eol.as_str(),
            );
            assert(text@ =~= inserted(contents@, license@, eol));
            text
        },
    }
}

// ---- Removing ----

/// Whether a line of a license, as a regular expression, is found at the
/// start of a line. An expression that does not compile is found nowhere.
pub open spec fn line_matches(pattern: Seq<char>, line: Seq<char>) -> bool {
    regex_says("^"@ + pattern, line) == Some(true)
}

/// Whether the license starts at a line: each of its lines matches the line
/// at its place.
pub open spec fn block_at(file: Seq<Seq<char>>, license: Seq<Seq<char>>, start: int) -> bool {
    &&& 0 <= start && start + license.len() <= file.len()
    &&& forall|offset: int|
        0 <= offset < license.len() ==> #[trigger] line_matches(
            license[offset],
            file[start + offset],
        )
}

/// The first line from `start` on at which the license starts.
pub open spec fn first_block(file: Seq<Seq<char>>, license: Seq<Seq<char>>, start: int) -> Option<
    int,
>
    decreases file.len() - start,
{
    if start >= file.len() {
        None
    } else if block_at(file, license, start) {
        Some(start)
    } else {
        first_block(file, license, start + 1)
    }
}

/// Where the license starts in the text of a file.
pub open spec fn license_start(contents: Seq<char>, pattern: Seq<char>) -> Option<int> {
    first_block(lines(contents), pieces(pattern, '\n'), 0)
}

/// The lines without a block of them, with the line ending between them.
pub open spec fn without_block(
    file: Seq<Seq<char>>,
    start: int,
    count: int,
    eol: Eol,
) -> Seq<char> {
    joined(file.take(start) + file.skip(start + count), eol.chars())
}

/// The text of a file without the first block that matches the license; the
/// text as it is where none does.
pub open spec fn removed(contents: Seq<char>, pattern: Seq<char>, eol: Eol) -> Seq<char> {
    match license_start(contents, pattern) {
        Some(start) => without_block(
            lines(contents),
            start,
            pieces(pattern, '\n').len() as int,
            eol,
        ),
        None => contents,
    }
}

/// Tests whether a line of a license is found at the start of a line.
fn test_line(pattern: &str, line: &str) -> (matched: bool)
    ensures
        matched == line_matches(pattern@, line@),
{
    let anchored = "^".to_owned().concat(pattern);
    match regex_search(anchored.as_str(), line) {
        Ok(found) => found,
        Err(_) => false,
    }
}

/// Tests whether the license starts at a line.
fn test_block(file: &Vec<String>, license: &Vec<String>, start: usize) -> (matched: bool)
    requires
        start <= file@.len(),
    ensures
        matched == block_at(texts(file@), texts(license@), start as int),
{
    let total: usize = file.len();
    let mut offset: usize = 0;
    while offset < license.len()
        invariant
            start <= file@.len() == total,
            offset <= license@.len(),
            start + offset <= total,
            forall|i: int|
                0 <= i < offset ==> #[trigger] line_matches(
                    texts(license@)[i],
                    texts(file@)[start + i],
                ),
        decreases license@.len() - offset,
    {
        if offset >= total - start {
            return false;
        }
        if !test_line(license[offset].as_str(), file[start + offset].as_str()) {
            assert(!line_matches(
                texts(license@)[offset as int],
                texts(file@)[start + offset],
            ));
            return false;
        }
        offset = offset + 1;
    }
    true
}

/// Finds the first line at which the license starts.
fn find_block(file: &Vec<String>, license: &Vec<String>) -> (found: Option<usize>)
    ensures
        match (found, first_block(texts(file@), texts(license@), 0)) {
            (Some(at), Some(start)) => at == start && block_at(
                texts(file@),
                texts(license@),
                start,
            ),
            (None, None) => true,
            _ => false,
        },
{
    let mut start: usize = 0;
    while start < file.len()
        invariant
            start <= file@.len(),
            first_block(texts(file@), texts(license@), 0) == first_block(
                texts(file@),
                texts(license@),
                start as int,
            ),
        decreases file@.len() - start,
    {
        if test_block(file, license, start) {
            return Some(start);
        }
        start = start + 1;
    }
    None
}

/// Joins the lines without a block of them.
pub fn drop_block(file: &Vec<String>, start: usize, count: usize, eol: Eol) -> (text: String)
    requires
        start + count <= file@.len(),
    ensures
        text@ == without_block(texts(file@), start as int, count as int, eol),
{
    let total: usize = file.len();
    let mut rest: Vec<String> = Vec::new();
    let ghost kept = texts(file@).take(start as int) + texts(file@).skip(start + count);
    let mut at: usize = 0;
    while at < total
        invariant
            at <= total == file@.len(),
            start + count <= total,
            kept == texts(file@).take(start as int) + texts(file@).skip(start + count),
            at <= start ==> texts(rest@) == kept.take(at as int),
            start < at < start + count ==> texts(rest@) == kept.take(start as int),
            at >= start + count ==> texts(rest@) == kept.take(at - count),
        decreases total - at,
    {
        let ghost before = texts(rest@);
        if at < start || at >= start + count {
            rest.push(file[at].clone());
            assert(texts(rest@) == before.push(texts(file@)[at as int]));
            proof {
                let place = if at < start {
                    at as int
                } else {
                    at - count
                };
                assert(kept.take(place + 1) == kept.take(place).push(texts(file@)[at as int]));
            }
        }
        at = at + 1;
    }
    assert(kept.take(total - count) == kept);
    join(&rest, eol.as_str())
}

/// Whether a block of lines matches the license.
pub fn remove_license(contents: &str, normalized_license: &str) -> (result: Result<bool, AppError>)
    ensures
        result == Ok::<bool, AppError>(license_start(contents@, normalized_license@) is Some),
{
    let file = split_lines(contents);
    let pattern = to_chars(normalized_license);
    let license = split_char(&pattern, '\n');
    Ok(find_block(&file, &license).is_some())
}

/// Removes the first block of lines that matches the license.
pub fn remove_matching_license(contents: &str, normalized_license: &str, eol: Eol) -> (result:
    Result<String, AppError>)
    ensures
        text_outcome(result) == Ok::<Seq<char>, Fault>(
            removed(contents@, normalized_license@, eol),
        ),
{
    let file = split_lines(contents);
    let pattern = to_chars(normalized_license);
    let license = split_char(&pattern, '\n');
    match find_block(&file, &license) {
        Some(start) => {
            assert(texts(license@).len() == license@.len());
            Ok(drop_block(&file, start, license.len(), eol))
        },
        None => Ok(contents.to_owned()),
    }
}

} // verus!
