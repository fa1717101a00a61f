//! Which files are left alone.
use vstd::prelude::*;

use crate::config::{Config, ConfigView};
use crate::error::{outcome, AppError, Fault};
use crate::glob::{glob_matches, glob_says, negation};
use crate::platform::{Platform, Separators};
use crate::text::{
    has_char, is_white_space, join, joined, listed_lines, opt_str, opt_text, pieces,
    pieces_not_empty, range_string, same_chars, split_char, split_listed, texts, to_chars, trim_end,
    trim_start, trimmed_end, trimmed_start, Trim,
};
use crate::text_lemmas::pieces_concat;

verus! {

// ---- Rules ----

/// A rule that leaves files alone, or takes them back in.
#[derive(Debug)]
pub struct IgnoreRule {
    /// The glob.
    pub pattern: String,
    /// Whether matching files are taken back in.
    pub negated: bool,
    /// Whether a glob without a slash is tested against names alone.
    pub git_style: bool,
    /// Whether only directories match.
    pub directory_only: bool,
}

/// The texts of a rule.
pub struct RuleView {
    pub pattern: Seq<char>,
    pub negated: bool,
    pub git_style: bool,
    pub directory_only: bool,
}

impl View for IgnoreRule {
    type V = RuleView;

    open spec fn view(&self) -> RuleView {
        RuleView {
            pattern: self.pattern@,
            negated: self.negated,
            git_style: self.git_style,
            directory_only: self.directory_only,
        }
    }
}

/// The rule that a line holds. White space round it does not count; an empty
/// line holds none, nor does one of an ignore file that starts with `#`. A
/// leading `!` negates, a trailing `/` asks for a directory, and slashes at
/// the start of the glob do not count, nor do those at its end.
pub open spec fn rule_in(raw: Seq<char>, git_style: bool) -> Option<RuleView> {
    let text = trimmed_end(trimmed_start(raw, Trim::WhiteSpace), Trim::WhiteSpace);
    if text.len() == 0 || (git_style && text[0] == '#') {
        None
    } else {
        let negated = text[0] == '!';
        let body = if negated {
            text.skip(1)
        } else {
            text
        };
        let directory_only = body.len() > 0 && body.last() == '/';
        let cut = if directory_only {
            trimmed_end(body, Trim::Char('/'))
        } else {
            body
        };
        Some(
            RuleView {
                pattern: trimmed_start(cut, Trim::Char('/')),
                negated,
                git_style,
                directory_only,
            },
        )
    }
}

/// The leading directories of a path, each as a path, and the path itself.
pub open spec fn prefixes(relative: Seq<char>) -> Seq<Seq<char>> {
    let components = pieces(relative, '/');
    Seq::new(components.len(), |i: int| joined(components.take(i + 1), seq!['/']))
}

/// The last component of a path.
pub open spec fn name_of(path: Seq<char>) -> Seq<char> {
    pieces(path, '/').last()
}

/// The first answer that is a match or a fault; without one, no match.
pub open spec fn first_decided(said: Seq<Result<bool, Fault>>) -> Result<bool, Fault>
    decreases said.len(),
{
    if said.len() == 0 {
        Ok(false)
    } else if said[0] == Ok::<bool, Fault>(false) {
        first_decided(said.drop_first())
    } else {
        said[0]
    }
}

/// What a glob says of each of some paths.
pub open spec fn each_says(
    pattern: Seq<char>,
    list: Seq<Seq<char>>,
    separators: Separators,
) -> Seq<Result<bool, Fault>> {
    list.map_values(|path: Seq<char>| glob_says(pattern, path, separators))
}

/// What a glob says of the first of some paths that it matches or fails on.
pub open spec fn any_glob(
    pattern: Seq<char>,
    candidates: Seq<Seq<char>>,
    separators: Separators,
) -> Result<bool, Fault> {
    first_decided(each_says(pattern, candidates, separators))
}

/// The paths that a rule is tested against: the path and its leading
/// directories, or their names.
pub open spec fn candidates(rule: RuleView, relative: Seq<char>) -> Seq<Seq<char>> {
    if rule.git_style && !rule.pattern.contains('/') {
        prefixes(relative).map_values(|path: Seq<char>| name_of(path))
    } else {
        prefixes(relative)
    }
}

/// What a rule says of a path.
pub open spec fn rule_says(
    rule: RuleView,
    relative: Seq<char>,
    is_directory: bool,
    separators: Separators,
) -> Result<bool, Fault> {
    if rule.directory_only && !is_directory {
        Ok(false)
    } else {
        any_glob(rule.pattern, candidates(rule, relative), separators)
    }
}

/// What the rules say with one more rule: a fault stays, a match of the rule
/// overrules what was said before.
pub open spec fn overruled(
    before: Result<bool, Fault>,
    rule: RuleView,
    answer: Result<bool, Fault>,
) -> Result<bool, Fault> {
    match (before, answer) {
        (Err(fault), _) => Err(fault),
        (_, Err(fault)) => Err(fault),
        (_, Ok(true)) => Ok(!rule.negated),
        (Ok(left_alone), Ok(false)) => Ok(left_alone),
    }
}

/// Whether the rules leave a path alone, by the answer of each rule: the last
/// rule that matches decides, and none leaves it in. A rule that fails is the
/// answer.
pub open spec fn folded(rules: Seq<RuleView>, said: Seq<Result<bool, Fault>>) -> Result<bool, Fault>
    decreases rules.len(),
{
    if rules.len() == 0 {
        Ok(false)
    } else {
        overruled(folded(rules.drop_last(), said.drop_last()), rules.last(), said.last())
    }
}

/// What each rule says of a path.
pub open spec fn rules_say(
    relative: Seq<char>,
    is_directory: bool,
    rules: Seq<RuleView>,
    separators: Separators,
) -> Seq<Result<bool, Fault>> {
    rules.map_values(|rule: RuleView| rule_says(rule, relative, is_directory, separators))
}

/// Whether the rules leave a path alone.
pub open spec fn ignored(
    relative: Seq<char>,
    is_directory: bool,
    rules: Seq<RuleView>,
    separators: Separators,
) -> Result<bool, Fault> {
    folded(rules, rules_say(relative, is_directory, rules, separators))
}

/// The texts of a list of rules.
pub open spec fn rules_view(rules: Seq<IgnoreRule>) -> Seq<RuleView> {
    rules.map_values(|rule: IgnoreRule| rule@)
}

/// The leading directories of a path.
pub fn path_prefixes(relative: &str) -> (list: Vec<String>)
    ensures
        texts(list@) == prefixes(relative@),
{
    proof {
        reveal_strlit("/");
        assert("/"@ == seq!['/']);
    }
    let chars = to_chars(relative);
    let components = split_char(&chars, '/');
    let ghost all = texts(components@);
    let mut taken: Vec<String> = Vec::new();
    let mut list: Vec<String> = Vec::new();
    let mut at: usize = 0;
    while at < components.len()
        invariant
            at <= components@.len(),
            "/"@ == seq!['/'],
            all == texts(components@),
            all == pieces(relative@, '/'),
            texts(taken@) == all.take(at as int),
            texts(list@) == prefixes(relative@).take(at as int),
        decreases components@.len() - at,
    {
        let ghost before = texts(list@);
        let ghost taken_before = texts(taken@);
        taken.push(components[at].clone());
        assert(texts(taken@) == taken_before.push(all[at as int]));
        at = at + 1;
        assert(texts(taken@) == all.take(at as int));
        let prefix = join(&taken, "/");
        assert(prefix@ == prefixes(relative@)[at - 1]);
        list.push(prefix);
        assert(texts(list@) == before.push(prefixes(relative@)[at - 1]));
        assert(prefixes(relative@).take(at as int) == before.push(prefixes(relative@)[at - 1]));
    }
    assert(prefixes(relative@).take(at as int) == prefixes(relative@));
    list
}

/// The last component of a path.
fn last_component(path: &str) -> (name: String)
    ensures
        name@ == name_of(path@),
{
    let chars = to_chars(path);
    let list = split_char(&chars, '/');
    proof {
        pieces_not_empty(path@, '/');
        assert(texts(list@).len() == list@.len());
        assert(texts(list@).last() == list@.last()@);
    }
    list[list.len() - 1].clone()
}

impl IgnoreRule {
    /// Reads the rule that a line holds.
    pub fn parse(raw: &str, git_style: bool) -> (result: Option<Result<IgnoreRule, AppError>>)
        ensures
            match rule_in(raw@, git_style) {
                Some(view) => result matches Some(Ok(rule)) && rule@ == view,
                None => result is None,
            },
    {
        let started = trim_start(raw, Trim::WhiteSpace);
        let text = trim_end(started.as_str(), Trim::WhiteSpace);
        let chars = to_chars(text.as_str());
        if chars.len() == 0 || (git_style && chars[0] == '#') {
            return None;
        }
        let negated = chars[0] == '!';
        let body = if negated {
            let body = range_string(&chars, 1, chars.len());
            assert(body@ == text@.skip(1));
            body
        } else {
            text
        };
        let body_chars = to_chars(body.as_str());
        let directory_only = body_chars.len() > 0 && body_chars[body_chars.len() - 1] == '/';
        let cut = if directory_only {
            trim_end(body.as_str(), Trim::Char('/'))
        } else {
            body
        };
        let pattern = trim_start(cut.as_str(), Trim::Char('/'));
        Some(Ok(IgnoreRule { pattern, negated, git_style, directory_only }))
    }

    /// Tests a path against the rule.
    pub fn matches(&self, relative: &str, is_directory: bool, platform: Platform) -> (result: Result<
        bool,
        AppError,
    >)
        ensures
            outcome(result) == rule_says(self@, relative@, is_directory, platform@),
    {
        if self.directory_only && !is_directory {
            return Ok(false);
        }
        let paths = path_prefixes(relative);
        let by_name = self.git_style && !has_char(self.pattern.as_str(), '/');
        let ghost list = candidates(self@, relative@);
        let ghost said = each_says(self.pattern@, list, platform@);
        let mut at: usize = 0;
        while at < paths.len()
            invariant
                at <= paths@.len(),
                texts(paths@) == prefixes(relative@),
                by_name == (self.git_style && !self.pattern@.contains('/')),
                list == candidates(self@, relative@),
                said == each_says(self.pattern@, list, platform@),
                !(self.directory_only && !is_directory),
                forall|i: int| 0 <= i < at ==> #[trigger] said[i] == Ok::<bool, Fault>(false),
            decreases paths@.len() - at,
        {
            assert(prefixes(relative@)[at as int] == paths@[at as int]@);
            let candidate = if by_name {
                last_component(paths[at].as_str())
            } else {
                paths[at].clone()
            };
            assert(candidate@ == list[at as int]);
            let answer = glob_matches(self.pattern.as_str(), candidate.as_str(), platform);
            assert(outcome(answer) == said[at as int]);
            match answer {
                Ok(false) => {},
                decided => {
                    proof {
                        undecided_answers(said, at as int);
                        assert(said.skip(at as int)[0] == said[at as int]);
                    }
                    return decided;
                },
            }
            at = at + 1;
        }
        proof {
            assert(list.len() == paths@.len());
            undecided_answers(said, at as int);
            assert(said.skip(at as int) == Seq::<Result<bool, Fault>>::empty());
        }
        Ok(false)
    }
}

/// Answers without a match or a fault do not decide.
proof fn undecided_answers(said: Seq<Result<bool, Fault>>, count: int)
    requires
        0 <= count <= said.len(),
        forall|i: int| 0 <= i < count ==> #[trigger] said[i] == Ok::<bool, Fault>(false),
    ensures
        first_decided(said) == first_decided(said.skip(count)),
    decreases count,
{
    if count == 0 {
        assert(said.skip(0) == said);
    } else {
        let rest = said.drop_first();
        assert(said[0] == Ok::<bool, Fault>(false));
        assert(forall|i: int| 0 <= i < rest.len() ==> #[trigger] rest[i] == said[i + 1]);
        undecided_answers(rest, count - 1);
        assert(rest.skip(count - 1) == said.skip(count));
    }
}

/// A fault of the first rules is the fault of all of them.
proof fn rules_fault_stays(rules: Seq<RuleView>, said: Seq<Result<bool, Fault>>, count: int)
    requires
        0 <= count <= rules.len() == said.len(),
        folded(rules.take(count), said.take(count)) is Err,
    ensures
        folded(rules, said) == folded(rules.take(count), said.take(count)),
    decreases rules.len(),
{
    if count == rules.len() {
        assert(rules.take(count) == rules);
        assert(said.take(count) == said);
    } else {
        assert(rules.drop_last().take(count) == rules.take(count));
        assert(said.drop_last().take(count) == said.take(count));
        rules_fault_stays(rules.drop_last(), said.drop_last(), count);
    }
}

/// Weighs the answer of one more rule against what the rules before it said.
pub fn overrule(before: bool, rule: &IgnoreRule, answer: Result<bool, AppError>) -> (result: Result<
    bool,
    AppError,
>)
    ensures
        outcome(result) == overruled(Ok(before), rule@, outcome(answer)),
        answer matches Err(error) ==> result == Err::<bool, AppError>(error),
{
    match answer {
        Ok(true) => Ok(!rule.negated),
        Ok(false) => Ok(before),
        Err(error) => Err(error),
    }
}

/// Decides whether the rules leave a path alone.
pub fn is_ignored(
    relative: &str,
    is_directory: bool,
    rules: &Vec<IgnoreRule>,
    platform: Platform,
) -> (result: Result<bool, AppError>)
    ensures
        outcome(result) == ignored(relative@, is_directory, rules_view(rules@), platform@),
{
    let ghost all = rules_view(rules@);
    let ghost said = rules_say(relative@, is_directory, all, platform@);
    let mut left_alone = false;
    let mut at: usize = 0;
    while at < rules.len()
        invariant
            at <= rules@.len(),
            all == rules_view(rules@),
            said == rules_say(relative@, is_directory, all, platform@),
            folded(all.take(at as int), said.take(at as int)) == Ok::<bool, Fault>(left_alone),
        decreases rules@.len() - at,
    {
        assert(all.take(at + 1).drop_last() == all.take(at as int));
        assert(said.take(at + 1).drop_last() == said.take(at as int));
        assert(all.take(at + 1).last() == rules@[at as int]@);
        let answer = rules[at].matches(relative, is_directory, platform);
        assert(said.take(at + 1).last() == outcome(answer));
        match overrule(left_alone, &rules[at], answer) {
            Ok(now) => {
                left_alone = now;
            },
            Err(error) => {
                proof {
                    rules_fault_stays(all, said, at + 1);
                }
                return Err(error);
            },
        }
        at = at + 1;
    }
    assert(all.take(at as int) == all);
    assert(said.take(at as int) == said);
    Ok(left_alone)
}

// ---- The rules of a configuration ----

/// The globs that are left alone unless the configuration says otherwise.
pub open spec fn default_globs() -> Seq<Seq<char>> {
    seq![
        "**/node_modules"@,
        "**/dist"@,
        "**/.git"@,
        "**/LICENSE*"@,
        "**/*.png"@,
        "**/*.jpg"@,
        "**/*.jpeg"@,
        "**/*.gif"@,
        "**/*.tif"@,
        "**/*.ico"@,
        "**/*.json"@,
        "**/*.zip"@,
        "**/*.tgz"@,
    ]
}

/// The globs that are left alone unless the configuration says otherwise.
pub fn default_ignores() -> (list: Vec<String>)
    ensures
        texts(list@) == default_globs(),
{
    let mut list: Vec<String> = Vec::new();
    list.push("**/node_modules".to_owned());
    list.push("**/dist".to_owned());
    list.push("**/.git".to_owned());
    list.push("**/LICENSE*".to_owned());
    list.push("**/*.png".to_owned());
    list.push("**/*.jpg".to_owned());
    list.push("**/*.jpeg".to_owned());
    list.push("**/*.gif".to_owned());
    list.push("**/*.tif".to_owned());
    list.push("**/*.ico".to_owned());
    list.push("**/*.json".to_owned());
    list.push("**/*.zip".to_owned());
    list.push("**/*.tgz".to_owned());
    assert(texts(list@) =~= default_globs());
    list
}

/// The rules that some lines hold, in order.
pub open spec fn rules_in(list: Seq<Seq<char>>, git_style: bool) -> Seq<RuleView>
    decreases list.len(),
{
    if list.len() == 0 {
        Seq::empty()
    } else {
        let before = rules_in(list.drop_last(), git_style);
        match rule_in(list.last(), git_style) {
            Some(rule) => before.push(rule),
            None => before,
        }
    }
}

/// The rules of a run: those of the ignore file, then those of the
/// configuration, then the default ones unless they are switched off.
pub open spec fn all_rules(config: ConfigView, ignore_text: Option<Seq<char>>) -> Seq<RuleView> {
    let of_file = match ignore_text {
        Some(text) => rules_in(listed_lines(text), true),
        None => Seq::empty(),
    };
    let of_default = if config.ignore_default_ignores {
        Seq::empty()
    } else {
        rules_in(default_globs(), false)
    };
    of_file + rules_in(config.ignore, false) + of_default
}

/// Adds the rules that some lines hold.
fn add_rules(rules: &mut Vec<IgnoreRule>, list: &Vec<String>, git_style: bool) -> (result: Result<
    (),
    AppError,
>)
    ensures
        result is Ok,
        rules_view(final(rules)@) == rules_view(old(rules)@) + rules_in(texts(list@), git_style),
{
    let ghost all = texts(list@);
    let ghost first = rules_view(rules@);
    let mut at: usize = 0;
    assert(first + rules_in(all.take(0), git_style) =~= first);
    while at < list.len()
        invariant
            at <= list@.len(),
            all == texts(list@),
            first == rules_view(old(rules)@),
            rules_view(rules@) == first + rules_in(all.take(at as int), git_style),
        decreases list@.len() - at,
    {
        let ghost before = rules_view(rules@);
        assert(all.take(at + 1).drop_last() == all.take(at as int));
        assert(all.take(at + 1).last() == list@[at as int]@);
        match IgnoreRule::parse(list[at].as_str(), git_style) {
            Some(Ok(rule)) => {
                let ghost added = rule@;
                rules.push(rule);
                assert(rules_view(rules@) =~= before.push(added));
            },
            Some(Err(error)) => return Err(error),
            None => {},
        }
        at = at + 1;
        assert(rules_view(rules@) =~= first + rules_in(all.take(at as int), git_style));
    }
    assert(all.take(at as int) == all);
    Ok(())
}

/// Reads the rules of a run from the ignore file and the configuration.
pub fn load_rules(config: &Config, ignore_text: Option<&str>) -> (result: Result<
    Vec<IgnoreRule>,
    AppError,
>)
    ensures
        result matches Ok(rules) && rules_view(rules@) == all_rules(
            config@,
            opt_str(ignore_text),
        ),
{
    let mut rules: Vec<IgnoreRule> = Vec::new();
    assert(rules_view(rules@) =~= Seq::<RuleView>::empty());
    if let Some(text) = ignore_text {
        match add_rules(&mut rules, &split_listed(text), true) {
            Ok(_) => {},
            Err(error) => return Err(error),
        }
    }
    match add_rules(&mut rules, &config.ignore, false) {
        Ok(_) => {},
        Err(error) => return Err(error),
    }
    if !config.ignore_default_ignores {
        match add_rules(&mut rules, &default_ignores(), false) {
            Ok(_) => {},
            Err(error) => return Err(error),
        }
    }
    assert(rules_view(rules@) =~= all_rules(config@, opt_str(ignore_text)));
    Ok(rules)
}

/// Whether an entry of the tree is a file to work on: a file that is not the
/// ignore file and that the rules do not leave alone.
pub open spec fn kept(
    relative: Seq<char>,
    is_file: bool,
    ignore_file: Option<Seq<char>>,
    rules: Seq<RuleView>,
    separators: Separators,
) -> Result<bool, Fault> {
    kept_by(relative, is_file, ignore_file, ignored(relative, false, rules, separators))
}

/// Whether an entry is a file to work on, by what the rules say of it.
pub open spec fn kept_by(
    relative: Seq<char>,
    is_file: bool,
    ignore_file: Option<Seq<char>>,
    left_alone: Result<bool, Fault>,
) -> Result<bool, Fault> {
    if !is_file || ignore_file == Some(relative) {
        Ok(false)
    } else {
        negation(left_alone)
    }
}

/// Decides whether an entry of the tree is a file to work on.
pub fn keep_entry(
    relative: &str,
    is_file: bool,
    ignore_file: &Option<String>,
    rules: &Vec<IgnoreRule>,
    platform: Platform,
) -> (result: Result<bool, AppError>)
    ensures
        outcome(result) == kept(
            relative@,
            is_file,
            opt_text(*ignore_file),
            rules_view(rules@),
            platform@,
        ),
{
    if !is_file {
        return Ok(false);
    }
    if let Some(own) = ignore_file {
        if same_chars(&to_chars(own.as_str()), &to_chars(relative)) {
            return Ok(false);
        }
    }
    match is_ignored(relative, false, rules, platform) {
        Ok(left_alone) => Ok(!left_alone),
        Err(error) => Err(error),
    }
}

// ---- Laws ----

/// The first rule that fails is the answer, whatever the other rules say.
pub proof fn first_fault_decides(
    rules: Seq<RuleView>,
    said: Seq<Result<bool, Fault>>,
    index: int,
    fault: Fault,
)
    requires
        said.len() == rules.len(),
        0 <= index < rules.len(),
        said[index] == Err::<bool, Fault>(fault),
        forall|i: int| 0 <= i < index ==> (#[trigger] said[i]) is Ok,
    ensures
        folded(rules, said) == Err::<bool, Fault>(fault),
{
    let some = rules.take(index + 1);
    let answers = said.take(index + 1);
    assert(some.drop_last() == rules.take(index));
    assert(answers.drop_last() == said.take(index));
    let before = said.take(index);
    assert(forall|i: int| 0 <= i < before.len() ==> #[trigger] before[i] == said[i]);
    faultless_rules(rules.take(index), before);
    rules_fault_stays(rules, said, index + 1);
}

/// Rules of which none fails do not fail.
pub proof fn faultless_rules(rules: Seq<RuleView>, said: Seq<Result<bool, Fault>>)
    requires
        said.len() == rules.len(),
        forall|i: int| 0 <= i < said.len() ==> (#[trigger] said[i]) is Ok,
    ensures
        folded(rules, said) is Ok,
    decreases rules.len(),
{
    if rules.len() > 0 {
        let front = said.drop_last();
        assert(forall|i: int| 0 <= i < front.len() ==> #[trigger] front[i] == said[i]);
        faultless_rules(rules.drop_last(), front);
        assert(said[said.len() - 1] is Ok);
    }
}

/// Where no rule fails, the last rule that matches decides: what the rules
/// before it say is overruled, and a negated rule takes the path back in.
pub proof fn last_match_decides(rules: Seq<RuleView>, said: Seq<Result<bool, Fault>>, index: int)
    requires
        said.len() == rules.len(),
        0 <= index < rules.len(),
        forall|i: int| 0 <= i < index ==> (#[trigger] said[i]) is Ok,
        said[index] == Ok::<bool, Fault>(true),
        forall|i: int| index < i < said.len() ==> #[trigger] said[i] == Ok::<bool, Fault>(false),
    ensures
        folded(rules, said) == Ok::<bool, Fault>(!rules[index].negated),
    decreases rules.len(),
{
    let front = rules.drop_last();
    let before = said.drop_last();
    assert(forall|i: int| 0 <= i < before.len() ==> #[trigger] before[i] == said[i]);
    if index == rules.len() - 1 {
        faultless_rules(front, before);
    } else {
        last_match_decides(front, before, index);
        assert(said[said.len() - 1] == said.last());
    }
}

/// A path that no rule matches is not ignored.
pub proof fn unmatched_is_kept(rules: Seq<RuleView>, said: Seq<Result<bool, Fault>>)
    requires
        said.len() == rules.len(),
        forall|i: int| 0 <= i < said.len() ==> #[trigger] said[i] == Ok::<bool, Fault>(false),
    ensures
        folded(rules, said) == Ok::<bool, Fault>(false),
    decreases rules.len(),
{
    if rules.len() > 0 {
        let before = said.drop_last();
        assert(forall|i: int| 0 <= i < before.len() ==> #[trigger] before[i] == said[i]);
        unmatched_is_kept(rules.drop_last(), before);
        assert(said[said.len() - 1] == said.last());
    }
}

/// What a rule is tested against for a path below another begins with what it
/// is tested against for the other.
proof fn candidates_below(rule: RuleView, path: Seq<char>, below: Seq<char>)
    ensures
        candidates(rule, path).len() <= candidates(rule, path.push('/') + below).len(),
        candidates(rule, path.push('/') + below).take(candidates(rule, path).len() as int)
            == candidates(rule, path),
{
    let whole = path.push('/') + below;
    pieces_concat(path, '/', below);
    let count = prefixes(path).len() as int;
    assert forall|i: int| 0 <= i < count implies prefixes(whole)[i] == prefixes(path)[i] by {
        assert(pieces(whole, '/').take(i + 1) =~= pieces(path, '/').take(i + 1));
    }
    assert(candidates(rule, whole).take(count) =~= candidates(rule, path));
}

/// A match or a fault is not undone by later answers.
proof fn decided_stays(said: Seq<Result<bool, Fault>>, count: int)
    requires
        0 <= count <= said.len(),
        first_decided(said.take(count)) != Ok::<bool, Fault>(false),
    ensures
        first_decided(said) == first_decided(said.take(count)),
    decreases said.len(),
{
    let some = said.take(count);
    assert(count > 0);
    assert(some[0] == said[0]);
    if said[0] == Ok::<bool, Fault>(false) {
        assert(some.drop_first() == said.drop_first().take(count - 1));
        decided_stays(said.drop_first(), count - 1);
    }
}

/// A rule that matches a path matches everything below it.
pub proof fn a_match_holds_below(
    rule: RuleView,
    path: Seq<char>,
    below: Seq<char>,
    is_directory: bool,
    separators: Separators,
)
    requires
        rule_says(rule, path, is_directory, separators) == Ok::<bool, Fault>(true),
    ensures
        rule_says(rule, path.push('/') + below, is_directory, separators) == Ok::<bool, Fault>(
            true,
        ),
{
    let list = candidates(rule, path.push('/') + below);
    let said = each_says(rule.pattern, list, separators);
    candidates_below(rule, path, below);
    let count = candidates(rule, path).len() as int;
    assert(said.take(count) =~= each_says(rule.pattern, candidates(rule, path), separators));
    decided_stays(said, count);
}

/// The rule that leaves alone what a glob matches.
pub open spec fn plain_rule(pattern: Seq<char>) -> RuleView {
    RuleView { pattern, negated: false, git_style: false, directory_only: false }
}

/// Whether a line holds a glob that is taken as it stands.
spec fn taken_as_it_stands(raw: Seq<char>) -> bool {
    &&& raw.len() > 0
    &&& raw[0] == '*'
    &&& !is_white_space(raw.last())
    &&& raw.last() != '/'
}

proof fn plain_rules_in(list: Seq<Seq<char>>)
    requires
        forall|i: int| 0 <= i < list.len() ==> taken_as_it_stands(#[trigger] list[i]),
    ensures
        rules_in(list, false) == list.map_values(|raw: Seq<char>| plain_rule(raw)),
    decreases list.len(),
{
    if list.len() > 0 {
        let front = list.drop_last();
        assert(forall|i: int| 0 <= i < front.len() ==> #[trigger] front[i] == list[i]);
        plain_rules_in(front);
        let raw = list[list.len() - 1];
        assert(raw == list.last());
        assert(rule_in(raw, false) == Some(plain_rule(raw)));
        assert(rules_in(list, false) =~= list.map_values(|raw: Seq<char>| plain_rule(raw)));
    } else {
        assert(rules_in(list, false) =~= list.map_values(|raw: Seq<char>| plain_rule(raw)));
    }
}

/// The default rules leave alone what the default globs match.
pub proof fn default_rules()
    ensures
        rules_in(default_globs(), false) == default_globs().map_values(
            |raw: Seq<char>| plain_rule(raw),
        ),
{
    reveal_strlit("**/node_modules");
    reveal_strlit("**/dist");
    reveal_strlit("**/.git");
    reveal_strlit("**/LICENSE*");
    reveal_strlit("**/*.png");
    reveal_strlit("**/*.jpg");
    reveal_strlit("**/*.jpeg");
    reveal_strlit("**/*.gif");
    reveal_strlit("**/*.tif");
    reveal_strlit("**/*.ico");
    reveal_strlit("**/*.json");
    reveal_strlit("**/*.zip");
    reveal_strlit("**/*.tgz");
    let list = default_globs();
    assert forall|i: int| 0 <= i < list.len() implies taken_as_it_stands(#[trigger] list[i]) by {}
    plain_rules_in(list);
}

/// Whether a path, or a directory above it, matches a default glob.
pub open spec fn default_ignored(relative: Seq<char>, separators: Separators) -> bool {
    exists|i: int|
        0 <= i < default_globs().len() && any_glob(
            #[trigger] default_globs()[i],
            prefixes(relative),
            separators,
        ) == Ok::<bool, Fault>(true)
}

/// Rules that are not negated only add to what is left alone.
proof fn plain_rules_only_add(
    rules: Seq<RuleView>,
    said: Seq<Result<bool, Fault>>,
    count: int,
)
    requires
        0 <= count <= rules.len() == said.len(),
        forall|i: int| count <= i < rules.len() ==> !(#[trigger] rules[i]).negated,
        folded(rules, said) is Ok,
    ensures
        folded(rules.take(count), said.take(count)) is Ok,
        folded(rules, said)->Ok_0 == (folded(rules.take(count), said.take(count))->Ok_0 || exists|
            i: int,
        |
            count <= i < said.len() && #[trigger] said[i] == Ok::<bool, Fault>(true)),
    decreases rules.len(),
{
    if count == rules.len() {
        assert(rules.take(count) == rules);
        assert(said.take(count) == said);
    } else {
        let front = rules.drop_last();
        let before = said.drop_last();
        assert(forall|i: int| 0 <= i < front.len() ==> #[trigger] front[i] == rules[i]);
        assert(forall|i: int| 0 <= i < before.len() ==> #[trigger] before[i] == said[i]);
        plain_rules_only_add(front, before, count);
        assert(front.take(count) == rules.take(count));
        assert(before.take(count) == said.take(count));
        let last = rules.len() - 1;
        assert(rules[last] == rules.last());
        assert(said[last] == said.last());
        let more = exists|i: int|
            count <= i < before.len() && #[trigger] before[i] == Ok::<bool, Fault>(true);
        let all = exists|i: int|
            count <= i < said.len() && #[trigger] said[i] == Ok::<bool, Fault>(true);
        if more {
            let i = choose|i: int|
                count <= i < before.len() && #[trigger] before[i] == Ok::<bool, Fault>(true);
            assert(said[i] == Ok::<bool, Fault>(true));
        }
        if all {
            let i = choose|i: int|
                count <= i < said.len() && #[trigger] said[i] == Ok::<bool, Fault>(true);
            if i < last {
                assert(before[i] == Ok::<bool, Fault>(true));
            }
        }
    }
}

/// The rules of a run without the default ones.
pub open spec fn own_rules(config: ConfigView, ignore_text: Option<Seq<char>>) -> Seq<RuleView> {
    all_rules(ConfigView { ignore_default_ignores: true, ..config }, ignore_text)
}

/// The default rules have the last word: where they are in use, the rules leave
/// alone what they would leave alone without them, and whatever matches a
/// default glob besides. No rule of the configuration or of the ignore file
/// brings such a file back.
pub proof fn default_ignored_stays_ignored(
    config: ConfigView,
    ignore_text: Option<Seq<char>>,
    relative: Seq<char>,
    separators: Separators,
)
    requires
        !config.ignore_default_ignores,
        ignored(relative, false, all_rules(config, ignore_text), separators) is Ok,
    ensures
        ({
            let own = ignored(relative, false, own_rules(config, ignore_text), separators);
            &&& own is Ok
            &&& ignored(relative, false, all_rules(config, ignore_text), separators) == Ok::<
                bool,
                Fault,
            >(own->Ok_0 || default_ignored(relative, separators))
        }),
{
    let rules = all_rules(config, ignore_text);
    let own = own_rules(config, ignore_text);
    let count = own.len() as int;
    let globs = default_globs();
    let said = rules_say(relative, false, rules, separators);
    default_rules();
    assert(rules =~= own + rules_in(globs, false));
    assert(rules.take(count) =~= own);
    assert(said.take(count) =~= rules_say(relative, false, own, separators));
    assert forall|i: int| count <= i < rules.len() implies !(#[trigger] rules[i]).negated
        && said[i] == any_glob(globs[i - count], prefixes(relative), separators) by {
        assert(rules[i] == plain_rule(globs[i - count]));
    }
    plain_rules_only_add(rules, said, count);
    if default_ignored(relative, separators) {
        let i = choose|i: int|
            0 <= i < globs.len() && any_glob(#[trigger] globs[i], prefixes(relative), separators)
                == Ok::<bool, Fault>(true);
        assert(rules[count + i] == plain_rule(globs[i]));
        assert(said[count + i] == Ok::<bool, Fault>(true));
    }
    if exists|i: int| count <= i < said.len() && #[trigger] said[i] == Ok::<bool, Fault>(true) {
        let i = choose|i: int|
            count <= i < said.len() && #[trigger] said[i] == Ok::<bool, Fault>(true);
        assert(rules[i] == plain_rule(globs[i - count]));
        assert(any_glob(globs[i - count], prefixes(relative), separators) == Ok::<bool, Fault>(
            true,
        ));
    }
}

} // verus!
