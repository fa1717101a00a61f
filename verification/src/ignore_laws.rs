//! What ignore rules stand for.
use vstd::prelude::*;

use crate::config::ConfigView;
use crate::error::Fault;
use crate::glob::glob_says;
use crate::ignore::{
    all_rules, any_glob, candidates, default_globs, default_ignored_stays_ignored, each_says,
    first_decided, ignored, kept, last_match_decides, name_of, prefixes, rule_in, rule_says,
    rules_in, rules_say, RuleView,
};
use crate::platform::Separators;
use crate::text::{
    is_white_space, joined, lines, listed_lines, pieces, pieces_not_empty, trimmed_end,
    trimmed_start, unified, Eol, Trim,
};
use crate::text_lemmas::{
    joined_concat, joined_pieces, lines_concat, pieces_concat, pieces_hold_no_separator,
    pieces_of_joined,
};

verus! {

// ---- How a rule is read ----

/// Whether a text is made of characters that a trim takes away.
pub open spec fn only_taken(text: Seq<char>, trim: Trim) -> bool {
    forall|i: int| 0 <= i < text.len() ==> trim.takes(#[trigger] text[i])
}

/// What is at the start is taken away, up to the first character that stays.
proof fn start_is_trimmed(head: Seq<char>, rest: Seq<char>, trim: Trim)
    requires
        only_taken(head, trim),
        rest.len() == 0 || !trim.takes(rest[0]),
    ensures
        trimmed_start(head + rest, trim) == rest,
    decreases head.len(),
{
    let text = head + rest;
    if head.len() == 0 {
        assert(text =~= rest);
    } else {
        assert(text[0] == head[0]);
        let more = head.drop_first();
        assert(forall|i: int| 0 <= i < more.len() ==> #[trigger] more[i] == head[i + 1]);
        assert(text.drop_first() =~= more + rest);
        start_is_trimmed(more, rest, trim);
    }
}

/// What is at the end is taken away, up to the last character that stays.
proof fn end_is_trimmed(rest: Seq<char>, tail: Seq<char>, trim: Trim)
    requires
        only_taken(tail, trim),
        rest.len() == 0 || !trim.takes(rest.last()),
    ensures
        trimmed_end(rest + tail, trim) == rest,
    decreases tail.len(),
{
    let text = rest + tail;
    if tail.len() == 0 {
        assert(text =~= rest);
    } else {
        assert(text.last() == tail[tail.len() - 1]);
        let more = tail.drop_last();
        assert(forall|i: int| 0 <= i < more.len() ==> #[trigger] more[i] == tail[i]);
        assert(text.drop_last() =~= rest + more);
        end_is_trimmed(rest, more, trim);
    }
}

/// The pattern of a rule is the line without the white space round it, without
/// a `!` at its start, which negates the rule, without slashes at its end,
/// which ask for a directory, and without slashes at its start.
pub proof fn a_rule_is_read(
    space: (Seq<char>, Seq<char>),
    negated: bool,
    slashes: (Seq<char>, Seq<char>),
    pattern: Seq<char>,
    git_style: bool,
)
    requires
        only_taken(space.0, Trim::WhiteSpace),
        only_taken(space.1, Trim::WhiteSpace),
        only_taken(slashes.0, Trim::Char('/')),
        only_taken(slashes.1, Trim::Char('/')),
        pattern.len() > 0,
        pattern[0] != '/',
        pattern.last() != '/',
        slashes.1.len() == 0 ==> !is_white_space(pattern.last()),
        !negated && slashes.0.len() == 0 ==> pattern[0] != '!' && !is_white_space(pattern[0]) && !(
        git_style && pattern[0] == '#'),
    ensures
        ({
            let mark = if negated {
                seq!['!']
            } else {
                Seq::empty()
            };
            rule_in(
                space.0 + mark + slashes.0 + pattern + slashes.1 + space.1,
                git_style,
            ) == Some(
                RuleView { pattern, negated, git_style, directory_only: slashes.1.len() > 0 },
            )
        }),
{
    let mark = if negated {
        seq!['!']
    } else {
        Seq::empty()
    };
    let cut = slashes.0 + pattern;
    let body = cut + slashes.1;
    let text = mark + body;
    let raw = space.0 + mark + slashes.0 + pattern + slashes.1 + space.1;
    assert(raw =~= space.0 + (text + space.1));
    if negated {
        assert(text[0] == '!');
    } else if slashes.0.len() > 0 {
        assert(text[0] == slashes.0[0]);
        assert(text[0] == '/');
    } else {
        assert(text[0] == pattern[0]);
    }
    assert((text + space.1)[0] == text[0]);
    start_is_trimmed(space.0, text + space.1, Trim::WhiteSpace);
    if slashes.1.len() > 0 {
        assert(text.last() == slashes.1[slashes.1.len() - 1]);
        assert(text.last() == '/');
    } else {
        assert(text.last() == pattern.last());
    }
    end_is_trimmed(text, space.1, Trim::WhiteSpace);
    if negated {
        assert(text.skip(1) =~= body);
    } else {
        assert(text =~= body);
    }
    assert(cut.last() == pattern.last());
    if slashes.1.len() > 0 {
        assert(body.last() == slashes.1[slashes.1.len() - 1]);
        end_is_trimmed(cut, slashes.1, Trim::Char('/'));
    } else {
        assert(body =~= cut);
    }
    start_is_trimmed(slashes.0, pattern, Trim::Char('/'));
}

/// A line of white space holds no rule, nor does a line of an ignore file whose
/// first other character is `#`.
pub proof fn a_line_without_a_rule(space: Seq<char>, note: Seq<char>)
    requires
        only_taken(space, Trim::WhiteSpace),
    ensures
        rule_in(space, true) is None,
        rule_in(space, false) is None,
        rule_in(space + seq!['#'] + note, true) is None,
{
    start_is_trimmed(space, Seq::empty(), Trim::WhiteSpace);
    assert(space + Seq::<char>::empty() =~= space);
    let text = seq!['#'] + note;
    assert(space + seq!['#'] + note =~= space + text);
    start_is_trimmed(space, text, Trim::WhiteSpace);
    hash_stays(text);
}

/// A `#` at the start stays when the end is trimmed.
proof fn hash_stays(text: Seq<char>)
    requires
        text.len() > 0,
        text[0] == '#',
    ensures
        trimmed_end(text, Trim::WhiteSpace).len() > 0,
        trimmed_end(text, Trim::WhiteSpace)[0] == '#',
    decreases text.len(),
{
    if is_white_space(text.last()) {
        assert(text.len() > 1);
        hash_stays(text.drop_last());
    }
}

/// Lines hold their rules one behind the other.
pub proof fn rules_stand_in_order(left: Seq<Seq<char>>, right: Seq<Seq<char>>, git_style: bool)
    ensures
        rules_in(left + right, git_style) == rules_in(left, git_style) + rules_in(right, git_style),
    decreases right.len(),
{
    let all = left + right;
    if right.len() == 0 {
        assert(all =~= left);
        assert(rules_in(left, git_style) + rules_in(right, git_style) =~= rules_in(
            left,
            git_style,
        ));
    } else {
        assert(all.drop_last() =~= left + right.drop_last());
        assert(all.last() == right.last());
        rules_stand_in_order(left, right.drop_last(), git_style);
        assert(rules_in(all, git_style) =~= rules_in(left, git_style) + rules_in(right, git_style));
    }
}

/// One line holds its rule, or none.
pub proof fn one_line_holds_one_rule(line: Seq<char>, git_style: bool)
    ensures
        rules_in(seq![line], git_style) == match rule_in(line, git_style) {
            Some(rule) => seq![rule],
            None => Seq::empty(),
        },
{
    let list = seq![line];
    assert(list.drop_last() =~= Seq::<Seq<char>>::empty());
    reveal_with_fuel(rules_in, 2);
    assert(rules_in(Seq::<Seq<char>>::empty(), git_style) =~= Seq::<RuleView>::empty());
    if let Some(rule) = rule_in(line, git_style) {
        assert(rules_in(list, git_style) =~= seq![rule]);
    }
}

/// An ignore file is read line by line; a line ending at its end opens no line.
pub proof fn an_ignore_file_is_read_line_by_line(text: Seq<char>)
    requires
        !(text.len() > 0 && text.last() == '\r'),
    ensures
        listed_lines(text.push('\n')) == lines(text),
        text.len() > 0 && text.last() != '\n' ==> listed_lines(text) == lines(text),
        listed_lines(Seq::empty()) == Seq::<Seq<char>>::empty(),
{
    let feed = text.push('\n');
    assert(feed =~= text + Eol::Lf.chars() + Seq::<char>::empty());
    lines_concat(text, Eol::Lf, Seq::empty());
    assert(lines(Seq::<char>::empty()) =~= seq![Seq::<char>::empty()]);
    assert(lines(feed).last() == Seq::<char>::empty());
    assert(lines(feed).drop_last() =~= lines(text));
    if text.len() > 0 && text.last() != '\n' {
        assert(unified(text).last() == text.last());
        pieces_not_empty(unified(text).drop_last(), '\n');
        assert(lines(text).last().len() > 0);
    }
    assert(lines(Seq::<char>::empty()).drop_last() =~= Seq::<Seq<char>>::empty());
}

// ---- What a rule is asked about ----

/// Whether a path or one of its leading directories ends at a place.
pub open spec fn ends_part_of_path(path: Seq<char>, at: int) -> bool {
    0 <= at <= path.len() && (at == path.len() || path[at] == '/')
}

/// Whether a name of a path stands between two places.
pub open spec fn name_stands(path: Seq<char>, start: int, end: int) -> bool {
    &&& 0 <= start <= end
    &&& ends_part_of_path(path, end)
    &&& start == 0 || path[start - 1] == '/'
    &&& !path.subrange(start, end).contains('/')
}

/// A leading directory ends where a slash stands.
proof fn a_prefix_ends_at_a_slash(path: Seq<char>, index: int)
    requires
        0 <= index < prefixes(path).len(),
    ensures
        ({
            let at = prefixes(path)[index].len() as int;
            &&& ends_part_of_path(path, at)
            &&& prefixes(path)[index] == path.take(at)
            &&& name_of(prefixes(path)[index]) == pieces(path, '/')[index]
            &&& exists|start: int| #[trigger]
                name_stands(path, start, at) && name_of(prefixes(path)[index]) == path.subrange(
                    start,
                    at,
                )
        }),
{
    let list = pieces(path, '/');
    let some = list.take(index + 1);
    let prefix = prefixes(path)[index];
    let at = prefix.len() as int;
    joined_pieces(path, '/');
    pieces_hold_no_separator(path, '/');
    assert(prefix == joined(some, seq!['/']));
    if index + 1 < list.len() {
        let more = list.skip(index + 1);
        assert(list =~= some + more);
        joined_concat(some, more, seq!['/']);
        assert(path[at] == '/');
        assert(path.take(at) =~= prefix);
    } else {
        assert(some =~= list);
        assert(path.take(at) =~= prefix);
    }
    assert forall|i: int| 0 <= i < some.len() implies !(#[trigger] some[i].contains('/')) by {
        assert(some[i] == list[i]);
        assert(!list[i].contains('/'));
    }
    pieces_of_joined(some, '/');
    let name = list[index];
    assert(name_of(prefix) == name);
    assert(!name.contains('/'));
    let start = at - name.len();
    if index > 0 {
        let before = list.take(index);
        assert(some =~= before + seq![name]);
        joined_concat(before, seq![name], seq!['/']);
        assert(joined(seq![name], seq!['/']) == name);
        assert(prefix[start - 1] == '/');
        assert(prefix.subrange(start, at) =~= name);
    } else {
        assert(some =~= seq![name]);
        assert(prefix =~= name);
    }
    assert(path.subrange(start, at) =~= name);
    if start > 0 {
        assert(path[start - 1] == path.take(at)[start - 1]);
    }
    assert(name_stands(path, start, at));
}

/// Where a path or one of its leading directories ends, there is a prefix.
proof fn a_prefix_for_each_end(path: Seq<char>, at: int) -> (index: int)
    requires
        ends_part_of_path(path, at),
    ensures
        0 <= index < prefixes(path).len(),
        prefixes(path)[index] == path.take(at),
{
    let list = pieces(path, '/');
    pieces_not_empty(path, '/');
    if at == path.len() {
        joined_pieces(path, '/');
        let index = list.len() - 1;
        assert(list.take(index + 1) =~= list);
        assert(path.take(at) =~= path);
        index
    } else {
        let front = path.take(at);
        let rest = path.skip(at + 1);
        assert(path =~= front.push('/') + rest);
        pieces_concat(front, '/', rest);
        pieces_not_empty(front, '/');
        joined_pieces(front, '/');
        let index = pieces(front, '/').len() - 1;
        assert(list.take(index + 1) =~= pieces(front, '/'));
        index
    }
}

/// Where no answer is a fault, the first that decides is a match if and only if
/// there is a match.
proof fn a_match_decides(said: Seq<Result<bool, Fault>>)
    requires
        forall|i: int| 0 <= i < said.len() ==> (#[trigger] said[i]) is Ok,
    ensures
        first_decided(said) is Ok,
        first_decided(said) == Ok::<bool, Fault>(true) <==> exists|i: int|
            0 <= i < said.len() && #[trigger] said[i] == Ok::<bool, Fault>(true),
    decreases said.len(),
{
    if said.len() > 0 {
        let rest = said.drop_first();
        assert(forall|i: int| 0 <= i < rest.len() ==> #[trigger] rest[i] == said[i + 1]);
        assert(said[0] is Ok);
        a_match_decides(rest);
        match said[0] {
            Ok(matched) => {
                assert(said[0] == Ok::<bool, Fault>(matched));
            },
            Err(_) => {},
        }
        if exists|i: int| 0 <= i < said.len() && #[trigger] said[i] == Ok::<bool, Fault>(true) {
            let i = choose|i: int|
                0 <= i < said.len() && #[trigger] said[i] == Ok::<bool, Fault>(true);
            if i > 0 {
                assert(rest[i - 1] == Ok::<bool, Fault>(true));
            }
        }
        if exists|i: int| 0 <= i < rest.len() && #[trigger] rest[i] == Ok::<bool, Fault>(true) {
            let i = choose|i: int|
                0 <= i < rest.len() && #[trigger] rest[i] == Ok::<bool, Fault>(true);
            assert(said[i + 1] == Ok::<bool, Fault>(true));
        }
    }
}

/// A rule for directories does not match a file, whatever its glob says.
pub proof fn a_rule_for_directories_passes_files_over(
    rule: RuleView,
    relative: Seq<char>,
    separators: Separators,
)
    requires
        rule.directory_only,
    ensures
        rule_says(rule, relative, false, separators) == Ok::<bool, Fault>(false),
{
}

/// A rule matches a path if and only if its glob matches the path or one of its
/// leading directories. (Where the glob does not fail on them; and the rule is
/// not one of an ignore file without a slash.)
pub proof fn a_rule_is_asked_about_leading_directories(
    rule: RuleView,
    relative: Seq<char>,
    is_directory: bool,
    separators: Separators,
)
    requires
        is_directory || !rule.directory_only,
        !rule.git_style || rule.pattern.contains('/'),
        forall|at: int| #[trigger]
            ends_part_of_path(relative, at) ==> glob_says(
                rule.pattern,
                relative.take(at),
                separators,
            ) is Ok,
    ensures
        rule_says(rule, relative, is_directory, separators) is Ok,
        rule_says(rule, relative, is_directory, separators) == Ok::<bool, Fault>(true) <==> exists|
            at: int,
        | #[trigger]
            ends_part_of_path(relative, at) && glob_says(
                rule.pattern,
                relative.take(at),
                separators,
            ) == Ok::<bool, Fault>(true),
{
    let list = prefixes(relative);
    let said = each_says(rule.pattern, list, separators);
    assert forall|i: int| 0 <= i < said.len() implies (#[trigger] said[i]) is Ok by {
        a_prefix_ends_at_a_slash(relative, i);
        assert(ends_part_of_path(relative, list[i].len() as int));
    }
    a_match_decides(said);
    if exists|i: int| 0 <= i < said.len() && #[trigger] said[i] == Ok::<bool, Fault>(true) {
        let i = choose|i: int| 0 <= i < said.len() && #[trigger] said[i] == Ok::<bool, Fault>(true);
        a_prefix_ends_at_a_slash(relative, i);
        assert(ends_part_of_path(relative, list[i].len() as int));
    }
    if exists|at: int| #[trigger]
        ends_part_of_path(relative, at) && glob_says(rule.pattern, relative.take(at), separators)
            == Ok::<bool, Fault>(true) {
        let at = choose|at: int| #[trigger]
            ends_part_of_path(relative, at) && glob_says(
                rule.pattern,
                relative.take(at),
                separators,
            ) == Ok::<bool, Fault>(true);
        let index = a_prefix_for_each_end(relative, at);
        assert(said[index] == Ok::<bool, Fault>(true));
    }
}

/// A rule of an ignore file without a slash matches a path if and only if its
/// glob matches one of the names in the path. (Where the glob does not fail on
/// them.)
pub proof fn a_rule_without_a_slash_is_asked_about_names(
    rule: RuleView,
    relative: Seq<char>,
    is_directory: bool,
    separators: Separators,
)
    requires
        is_directory || !rule.directory_only,
        rule.git_style && !rule.pattern.contains('/'),
        forall|start: int, end: int| #[trigger]
            name_stands(relative, start, end) ==> glob_says(
                rule.pattern,
                relative.subrange(start, end),
                separators,
            ) is Ok,
    ensures
        rule_says(rule, relative, is_directory, separators) is Ok,
        rule_says(rule, relative, is_directory, separators) == Ok::<bool, Fault>(true) <==> exists|
            start: int,
            end: int,
        | #[trigger]
            name_stands(relative, start, end) && glob_says(
                rule.pattern,
                relative.subrange(start, end),
                separators,
            ) == Ok::<bool, Fault>(true),
{
    let all = prefixes(relative);
    let list = candidates(rule, relative);
    let said = each_says(rule.pattern, list, separators);
    assert forall|i: int| 0 <= i < said.len() implies (#[trigger] said[i]) is Ok by {
        a_prefix_ends_at_a_slash(relative, i);
        assert(list[i] == name_of(all[i]));
    }
    a_match_decides(said);
    if exists|i: int| 0 <= i < said.len() && #[trigger] said[i] == Ok::<bool, Fault>(true) {
        let i = choose|i: int| 0 <= i < said.len() && #[trigger] said[i] == Ok::<bool, Fault>(true);
        a_prefix_ends_at_a_slash(relative, i);
        assert(list[i] == name_of(all[i]));
    }
    if exists|start: int, end: int| #[trigger]
        name_stands(relative, start, end) && glob_says(
            rule.pattern,
            relative.subrange(start, end),
            separators,
        ) == Ok::<bool, Fault>(true) {
        let (start, end) = choose|start: int, end: int| #[trigger]
            name_stands(relative, start, end) && glob_says(
                rule.pattern,
                relative.subrange(start, end),
                separators,
            ) == Ok::<bool, Fault>(true);
        let index = a_prefix_for_each_end(relative, end);
        a_prefix_ends_at_a_slash(relative, index);
        assert(all[index].len() == end);
        let first = choose|first: int| #[trigger]
            name_stands(relative, first, end) && name_of(all[index]) == relative.subrange(
                first,
                end,
            );
        one_name_ends_there(relative, start, first, end);
        assert(list[index] == name_of(all[index]));
        assert(said[index] == Ok::<bool, Fault>(true));
    }
}

/// One name ends at a place.
proof fn one_name_ends_there(path: Seq<char>, left: int, right: int, end: int)
    requires
        name_stands(path, left, end),
        name_stands(path, right, end),
    ensures
        left == right,
{
    if left < right {
        assert(path.subrange(left, end)[right - 1 - left] == '/');
    }
    if right < left {
        assert(path.subrange(right, end)[left - 1 - right] == '/');
    }
}

// ---- Which rules have the last word ----

/// The rules of the configuration overrule those of the ignore file: the last
/// of them that matches decides. (Where no rule fails and the default rules are
/// switched off.)
pub proof fn the_configuration_overrules_the_ignore_file(
    config: ConfigView,
    ignore_text: Option<Seq<char>>,
    relative: Seq<char>,
    is_directory: bool,
    separators: Separators,
    index: int,
)
    requires
        config.ignore_default_ignores,
        forall|i: int|
            0 <= i < all_rules(config, ignore_text).len() ==> rule_says(
                #[trigger] all_rules(config, ignore_text)[i],
                relative,
                is_directory,
                separators,
            ) is Ok,
        0 <= index < rules_in(config.ignore, false).len(),
        rule_says(rules_in(config.ignore, false)[index], relative, is_directory, separators)
            == Ok::<bool, Fault>(true),
        forall|i: int|
            index < i < rules_in(config.ignore, false).len() ==> rule_says(
                #[trigger] rules_in(config.ignore, false)[i],
                relative,
                is_directory,
                separators,
            ) == Ok::<bool, Fault>(false),
    ensures
        ignored(relative, is_directory, all_rules(config, ignore_text), separators) == Ok::<
            bool,
            Fault,
        >(!rules_in(config.ignore, false)[index].negated),
{
    let rules = all_rules(config, ignore_text);
    let own = rules_in(config.ignore, false);
    let said = rules_say(relative, is_directory, rules, separators);
    let skip = rules.len() - own.len();
    assert(forall|i: int| 0 <= i < own.len() ==> rules[skip + i] == #[trigger] own[i]);
    assert forall|i: int| skip + index < i < said.len() implies #[trigger] said[i] == Ok::<
        bool,
        Fault,
    >(false) by {
        assert(rules[i] == own[i - skip]);
    }
    assert(rules[skip + index] == own[index]);
    last_match_decides(rules, said, skip + index);
}

/// Where neither the configuration nor the default rules say anything of a
/// path, the last rule of the ignore file that matches it decides, and each of
/// its rules is one of an ignore file. (Where no rule fails.)
pub proof fn the_ignore_file_is_heard(
    config: ConfigView,
    text: Seq<char>,
    relative: Seq<char>,
    is_directory: bool,
    separators: Separators,
    index: int,
)
    requires
        forall|i: int|
            0 <= i < all_rules(config, Some(text)).len() ==> rule_says(
                #[trigger] all_rules(config, Some(text))[i],
                relative,
                is_directory,
                separators,
            ) is Ok,
        0 <= index < rules_in(listed_lines(text), true).len(),
        rule_says(rules_in(listed_lines(text), true)[index], relative, is_directory, separators)
            == Ok::<bool, Fault>(true),
        forall|i: int|
            index < i < all_rules(config, Some(text)).len() ==> rule_says(
                #[trigger] all_rules(config, Some(text))[i],
                relative,
                is_directory,
                separators,
            ) == Ok::<bool, Fault>(false),
    ensures
        ignored(relative, is_directory, all_rules(config, Some(text)), separators) == Ok::<
            bool,
            Fault,
        >(!rules_in(listed_lines(text), true)[index].negated),
{
    let rules = all_rules(config, Some(text));
    let said = rules_say(relative, is_directory, rules, separators);
    let own = rules_in(listed_lines(text), true);
    assert(rules[index] == own[index]);
    last_match_decides(rules, said, index);
}

/// A directory is never worked on, nor is the ignore file; any other file is
/// worked on if and only if the rules do not leave it alone.
pub proof fn what_is_worked_on(
    relative: Seq<char>,
    ignore_file: Option<Seq<char>>,
    rules: Seq<RuleView>,
    separators: Separators,
)
    ensures
        kept(relative, false, ignore_file, rules, separators) == Ok::<bool, Fault>(false),
        kept(relative, true, Some(relative), rules, separators) == Ok::<bool, Fault>(false),
        ignore_file != Some(relative) ==> kept(relative, true, ignore_file, rules, separators)
            == match ignored(relative, false, rules, separators) {
            Ok(left_alone) => Ok(!left_alone),
            Err(fault) => Err::<bool, Fault>(fault),
        },
{
}

/// Of the answers of a glob on some paths, the first that is no refusal counts,
/// be it a match or a fault; without one, the glob matches none of the paths.
pub proof fn the_first_answer_counts(
    pattern: Seq<char>,
    list: Seq<Seq<char>>,
    separators: Separators,
    count: int,
)
    requires
        0 <= count <= list.len(),
        forall|i: int|
            0 <= i < count ==> glob_says(pattern, #[trigger] list[i], separators) == Ok::<
                bool,
                Fault,
            >(false),
    ensures
        count < list.len() && glob_says(pattern, list[count], separators) != Ok::<bool, Fault>(
            false,
        ) ==> any_glob(pattern, list, separators) == glob_says(pattern, list[count], separators),
        count == list.len() ==> any_glob(pattern, list, separators) == Ok::<bool, Fault>(false),
    decreases count,
{
    let said = each_says(pattern, list, separators);
    if count > 0 {
        let rest = list.drop_first();
        assert forall|i: int| 0 <= i < count - 1 implies glob_says(
            pattern,
            #[trigger] rest[i],
            separators,
        ) == Ok::<bool, Fault>(false) by {
            assert(rest[i] == list[i + 1]);
        }
        the_first_answer_counts(pattern, rest, separators, count - 1);
        assert(said.drop_first() =~= each_says(pattern, rest, separators));
        assert(said[0] == glob_says(pattern, list[0], separators));
    }
}

// ---- What is left alone by default ----

/// A path that one of these globs matches, or a directory above it, is left
/// alone unless the configuration switches that off.
pub proof fn what_is_left_alone_by_default(
    config: ConfigView,
    ignore_text: Option<Seq<char>>,
    relative: Seq<char>,
    separators: Separators,
    glob: Seq<char>,
)
    requires
        !config.ignore_default_ignores,
        ignored(relative, false, all_rules(config, ignore_text), separators) is Ok,
        any_glob(glob, prefixes(relative), separators) == Ok::<bool, Fault>(true),
        ({
            ||| glob == "**/node_modules"@
            ||| glob == "**/dist"@
            ||| glob == "**/.git"@
            ||| glob == "**/LICENSE*"@
            ||| glob == "**/*.png"@
            ||| glob == "**/*.jpg"@
            ||| glob == "**/*.jpeg"@
            ||| glob == "**/*.gif"@
            ||| glob == "**/*.tif"@
            ||| glob == "**/*.ico"@
            ||| glob == "**/*.json"@
            ||| glob == "**/*.zip"@
            ||| glob == "**/*.tgz"@
        }),
    ensures
        ignored(relative, false, all_rules(config, ignore_text), separators) == Ok::<bool, Fault>(
            true,
        ),
{
    let globs = default_globs();
    default_ignored_stays_ignored(config, ignore_text, relative, separators);
    let i: int = if glob == globs[0] {
        0
    } else if glob == globs[1] {
        1
    } else if glob == globs[2] {
        2
    } else if glob == globs[3] {
        3
    } else if glob == globs[4] {
        4
    } else if glob == globs[5] {
        5
    } else if glob == globs[6] {
        6
    } else if glob == globs[7] {
        7
    } else if glob == globs[8] {
        8
    } else if glob == globs[9] {
        9
    } else if glob == globs[10] {
        10
    } else if glob == globs[11] {
        11
    } else {
        12
    };
    assert(globs[i] == glob);
}

/// No other glob leaves a path alone by default.
pub proof fn few_things_are_left_alone_by_default(glob: Seq<char>)
    requires
        default_globs().contains(glob),
    ensures
        glob == "**/node_modules"@ || glob == "**/dist"@ || glob == "**/.git"@ || glob
            == "**/LICENSE*"@ || glob == "**/*.png"@ || glob == "**/*.jpg"@ || glob
            == "**/*.jpeg"@ || glob == "**/*.gif"@ || glob == "**/*.tif"@ || glob == "**/*.ico"@
            || glob == "**/*.json"@ || glob == "**/*.zip"@ || glob == "**/*.tgz"@,
{
}

} // verus!
