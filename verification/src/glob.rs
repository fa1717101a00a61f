//! Ignore globs, with one negated group `!(..)`.
use vstd::prelude::*;

use crate::error::{outcome, AppError, Fault};
use crate::matcher::{
    escaped, glob_accepts, glob_compiles, glob_parses, glob_test, group_of, group_search,
    group_text, regex_compiles,
};
use crate::platform::{Platform, Separators};
use crate::text::{find, find_from, find_is_first, range_string, to_chars};

verus! {

/// The two characters that open a negated group.
pub open spec fn group_open() -> Seq<char> {
    seq!['!', '(']
}

/// The character that closes a negated group.
pub open spec fn group_close() -> Seq<char> {
    seq![')']
}

/// A part of a glob as a regular expression: `**/` stands for any leading
/// directories, `**` for anything, `*` for anything but `/`, `?` for one
/// character but `/`, and every other character for itself.
pub open spec fn fragment_regex(fragment: Seq<char>) -> Seq<char>
    decreases fragment.len(),
{
    if fragment.len() == 0 {
        Seq::empty()
    } else if seq!['*', '*', '/'].is_prefix_of(fragment) {
        "(?:.*/)?"@ + fragment_regex(fragment.skip(3))
    } else if seq!['*', '*'].is_prefix_of(fragment) {
        ".*"@ + fragment_regex(fragment.skip(2))
    } else if fragment[0] == '*' {
        "[^/]*"@ + fragment_regex(fragment.skip(1))
    } else if fragment[0] == '?' {
        "[^/]"@ + fragment_regex(fragment.skip(1))
    } else {
        escaped(seq![fragment[0]]) + fragment_regex(fragment.skip(1))
    }
}

/// Writes a part of a glob as a regular expression.
pub fn glob_fragment_regex(fragment: &str) -> (output: String)
    ensures
        output@ == fragment_regex(fragment@),
{
    let mut output = String::new();
    let characters = to_chars(fragment);
    let total: usize = characters.len();
    let mut index: usize = 0;
    assert(fragment@.skip(0) == fragment@);
    assert(output@ + fragment_regex(fragment@.skip(0)) == fragment_regex(fragment@));
    while index < total
        invariant
            index <= total == characters@.len(),
            characters@ == fragment@,
            output@ + fragment_regex(fragment@.skip(index as int)) == fragment_regex(fragment@),
        decreases total - index,
    {
        let ghost before = output@;
        let ghost rest = fragment@.skip(index as int);
        let character = characters[index];
        let second_star = index + 1 < total && characters[index + 1] == '*';
        let slash = index + 1 < total && index + 2 < total && characters[index + 2] == '/';
        proof {
            let stars = seq!['*', '*'];
            let stars_slash = seq!['*', '*', '/'];
            assert(stars.is_prefix_of(rest) == (character == '*' && second_star)) by {
                if character == '*' && second_star {
                    assert(rest.subrange(0, 2) =~= stars);
                }
                if stars.is_prefix_of(rest) {
                    assert(rest.subrange(0, 2)[0] == stars[0]);
                    assert(rest.subrange(0, 2)[1] == stars[1]);
                }
            }
            assert(stars_slash.is_prefix_of(rest) == (character == '*' && second_star && slash)) by {
                if character == '*' && second_star && slash {
                    assert(rest.subrange(0, 3) =~= stars_slash);
                }
                if stars_slash.is_prefix_of(rest) {
                    assert(rest.subrange(0, 3)[0] == stars_slash[0]);
                    assert(rest.subrange(0, 3)[1] == stars_slash[1]);
                    assert(rest.subrange(0, 3)[2] == stars_slash[2]);
                }
            }
        }
        if character == '*' && second_star {
            if slash {
                output.append("(?:.*/)?");
                index = index + 3;
            } else {
                output.append(".*");
                index = index + 2;
            }
        } else if character == '*' {
            output.append("[^/]*");
            index = index + 1;
        } else if character == '?' {
            output.append("[^/]");
            index = index + 1;
        } else {
            let plain = range_string(&characters, index, index + 1);
            assert(plain@ == seq![character]);
            output.append(regex::escape(plain.as_str()).as_str());
            index = index + 1;
        }
        assert(fragment@.skip(index as int) == rest.skip(index - (fragment@.len() - rest.len())));
        assert(output@ + fragment_regex(fragment@.skip(index as int)) =~= before + fragment_regex(
            rest,
        ));
    }
    assert(fragment@.skip(index as int) == Seq::<char>::empty());
    output
}

/// The regular expression for a glob whose negated group stands between the
/// two given parts; the group is captured.
pub open spec fn group_regex(before: Seq<char>, after: Seq<char>) -> Seq<char> {
    "^"@ + fragment_regex(before) + "([^/]+)"@ + fragment_regex(after) + "$"@
}

/// The complaint about a pattern whose negated group is not closed.
pub open spec fn unsupported(pattern: Seq<char>) -> Fault {
    Fault::Message("Unsupported ignore pattern: "@ + pattern)
}

/// Where the first negated group of a pattern opens and closes: the index of
/// `!(` and of the first `)` behind it.
pub open spec fn group_bounds(pattern: Seq<char>) -> Option<(int, int)> {
    match find(pattern, group_open()) {
        Some(open) => match find(pattern.skip(open + 2), group_close()) {
            Some(offset) => Some((open, open + 2 + offset)),
            None => None,
        },
        None => None,
    }
}

/// The bounds of a negated group lie in the pattern.
pub proof fn group_bounds_fit(pattern: Seq<char>)
    ensures
        group_bounds(pattern) matches Some(bounds) ==> 0 <= bounds.0 && bounds.0 + 2 <= bounds.1
            && bounds.1 < pattern.len(),
        find(pattern, group_open()) matches Some(open) ==> 0 <= open && open + 2 <= pattern.len(),
{
    find_is_first(pattern, group_open());
    if let Some(open) = find(pattern, group_open()) {
        find_is_first(pattern.skip(open + 2), group_close());
    }
}

/// The opposite answer; a fault stays.
pub open spec fn negation(answer: Result<bool, Fault>) -> Result<bool, Fault> {
    match answer {
        Ok(matched) => Ok(!matched),
        Err(fault) => Err(fault),
    }
}

/// The text that a group took: none is empty.
pub open spec fn taken_text(taken: Option<Seq<char>>) -> Seq<char> {
    match taken {
        Some(text) => text,
        None => Seq::empty(),
    }
}

/// What a glob without a negated group says of a path.
pub open spec fn plain_glob(
    pattern: Seq<char>,
    value: Seq<char>,
    separators: Separators,
) -> Result<bool, Fault> {
    let Separators { slash, backslash } = separators;
    if !glob_parses(pattern, slash, backslash) {
        Err(Fault::Glob(pattern))
    } else if !glob_compiles(pattern, slash, backslash) {
        Err(Fault::Regex(pattern))
    } else {
        Ok(glob_accepts(pattern, value, slash, backslash))
    }
}

/// What a glob says of a path. Where the pattern holds a negated group, the
/// path must match round the group, and what the group took must not match
/// the pattern in the group.
pub open spec fn glob_says(
    pattern: Seq<char>,
    value: Seq<char>,
    separators: Separators,
) -> Result<bool, Fault>
    decreases pattern.len(),
{
    if find(pattern, group_open()) is None {
        plain_glob(pattern, value, separators)
    } else {
        match group_bounds(pattern) {
            None => Err(unsupported(pattern)),
            Some((open, close)) => {
                proof {
                    group_bounds_fit(pattern);
                }
                let regex = group_regex(pattern.take(open), pattern.skip(close + 1));
                if !regex_compiles(regex) {
                    Err(Fault::Regex(pattern))
                } else {
                    match group_of(regex, value) {
                        None => Ok(false),
                        Some(taken) => negation(
                            glob_says(
                                pattern.subrange(open + 2, close),
                                taken_text(taken),
                                separators,
                            ),
                        ),
                    }
                }
            },
        }
    }
}

/// What a negated group says: `false` where the path does not match round the
/// group, else the opposite of what the pattern in the group says of the text
/// that the group took.
pub open spec fn negated(
    inner: Seq<char>,
    group: Option<Option<Seq<char>>>,
    separators: Separators,
) -> Result<bool, Fault> {
    match group {
        None => Ok(false),
        Some(taken) => negation(glob_says(inner, taken_text(taken), separators)),
    }
}

/// Decides a glob without a negated group from what building and testing it
/// gave.
pub fn plain_answer(
    pattern: &str,
    tested: Result<Result<bool, regex::Error>, globset::Error>,
) -> (result: Result<bool, AppError>)
    ensures
        match tested {
            Ok(Ok(matched)) => result == Ok::<bool, AppError>(matched),
            Ok(Err(error)) => result matches Err(AppError::Regex { pattern: named, source })
                && named@ == pattern@ && source == error,
            Err(error) => result matches Err(AppError::Glob { pattern: named, source }) && named@
                == pattern@ && source == error,
        },
{
    match tested {
        Ok(Ok(matched)) => Ok(matched),
        Ok(Err(source)) => Err(AppError::Regex { pattern: pattern.to_owned(), source }),
        Err(source) => Err(AppError::Glob { pattern: pattern.to_owned(), source }),
    }
}

/// Tests a path against a glob.
pub fn glob_matches(pattern: &str, value: &str, platform: Platform) -> (result: Result<
    bool,
    AppError,
>)
    ensures
        outcome(result) == glob_says(pattern@, value@, platform@),
    decreases pattern@.len(), 2nat,
{
    proof {
        reveal_strlit("!(");
    }
    let characters = to_chars(pattern);
    let opening = to_chars("!(");
    assert(opening@ == group_open());
    assert(pattern@.skip(0) == pattern@);
    if find_from(&characters, &opening, 0).is_some() {
        return negated_extglob_matches(pattern, value, platform);
    }
    plain_answer(pattern, glob_test(pattern, value, platform))
}

/// Tests a path against a glob with a negated group.
pub fn negated_extglob_matches(pattern: &str, value: &str, platform: Platform) -> (result: Result<
    bool,
    AppError,
>)
    ensures
        outcome(result) == match group_bounds(pattern@) {
            None => Err(unsupported(pattern@)),
            Some(_) => glob_says(pattern@, value@, platform@),
        },
    decreases pattern@.len(), 1nat,
{
    proof {
        reveal_strlit("!(");
        reveal_strlit(")");
        group_bounds_fit(pattern@);
        assert(pattern@.skip(0) == pattern@);
    }
    let characters = to_chars(pattern);
    let opening = to_chars("!(");
    let closing = to_chars(")");
    assert(opening@ == group_open());
    assert(closing@ == group_close());
    let total: usize = characters.len();
    let open = match find_from(&characters, &opening, 0) {
        Some(open) => open,
        None => return Err(
            AppError::Message("Unsupported ignore pattern: ".to_owned().concat(pattern)),
        ),
    };
    let close = match find_from(&characters, &closing, open + 2) {
        Some(close) => close,
        None => return Err(
            AppError::Message("Unsupported ignore pattern: ".to_owned().concat(pattern)),
        ),
    };
    let before = range_string(&characters, 0, open);
    let after = range_string(&characters, close + 1, total);
    let inner = range_string(&characters, open + 2, close);
    assert(before@ == pattern@.take(open as int));
    assert(after@ == pattern@.skip(close + 1));
    let mut regex = "^".to_owned();
    regex.append(glob_fragment_regex(before.as_str()).as_str());
    regex.append("([^/]+)");
    regex.append(glob_fragment_regex(after.as_str()).as_str());
    regex.append("$");
    negate_group(pattern, inner.as_str(), group_search(regex.as_str(), value), platform)
}

/// Decides a glob with a negated group from what the search round the group
/// captured.
pub fn negate_group(
    pattern: &str,
    inner: &str,
    captured: Result<Option<Option<String>>, regex::Error>,
    platform: Platform,
) -> (result: Result<bool, AppError>)
    ensures
        match captured {
            Ok(group) => outcome(result) == negated(inner@, group_text(group), platform@),
            Err(error) => result matches Err(AppError::Regex { pattern: named, source }) && named@
                == pattern@ && source == error,
        },
    decreases inner@.len(), 3nat,
{
    let taken = match captured {
        Ok(Some(Some(taken))) => taken,
        Ok(Some(None)) => String::new(),
        Ok(None) => return Ok(false),
        Err(source) => return Err(AppError::Regex { pattern: pattern.to_owned(), source }),
    };
    match glob_matches(inner, taken.as_str(), platform) {
        Ok(matched) => Ok(!matched),
        Err(error) => Err(error),
    }
}

} // verus!
