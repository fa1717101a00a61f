use license_check_and_add::config::Config;
use license_check_and_add::glob::{
    glob_fragment_regex, glob_matches, negate_group, negated_extglob_matches, plain_answer,
};
use license_check_and_add::ignore::{
    default_ignores, is_ignored, keep_entry, load_rules, overrule, path_prefixes, IgnoreRule,
};
use license_check_and_add::matcher::regex_search;
use license_check_and_add::platform::Platform;
use license_check_and_add::{AppError, Format};

fn rule(raw: &str, git_style: bool) -> IgnoreRule {
    IgnoreRule::parse(raw, git_style).unwrap().unwrap()
}

fn config(ignore: Vec<&str>, ignore_default_ignores: bool) -> Config {
    Config {
        default_format: Format::default(),
        ignore_default_ignores,
        ignore: ignore.into_iter().map(str::to_owned).collect(),
        ignore_file: None,
        license: String::new(),
        license_formats: Vec::new(),
        output: None,
        regex: None,
        trim_trailing_whitespace: false,
    }
}

fn here() -> Platform {
    Platform::here()
}

#[test]
fn supports_fixture_extglob_and_gitignore_exception() {
    assert!(glob_matches("**/!(text_file_to_not_ignore).txt", "sub/odd.txt", here()).unwrap());
    assert!(
        !glob_matches(
            "**/!(text_file_to_not_ignore).txt",
            "sub/text_file_to_not_ignore.txt", here()
        )
        .unwrap()
    );
    let rules = vec![
        IgnoreRule::parse("*.txt", true).unwrap().unwrap(),
        IgnoreRule::parse("!sub/text.txt", true).unwrap().unwrap(),
    ];
    assert!(!is_ignored("sub/text.txt", false, &rules, here()).unwrap());
}

#[test]
fn the_last_match_decides() {
    let rules = vec![rule("*.txt", true), rule("!sub/*", false), rule("sub/a.txt", false)];
    assert!(is_ignored("b.txt", false, &rules, here()).unwrap());
    assert!(!is_ignored("sub/b.txt", false, &rules, here()).unwrap());
    assert!(is_ignored("sub/a.txt", false, &rules, here()).unwrap());
    assert!(!is_ignored("sub/b.rs", false, &rules, here()).unwrap());
    assert!(!is_ignored("b.txt", false, &Vec::new(), here()).unwrap());
}

#[test]
fn rules_are_parsed() {
    assert!(IgnoreRule::parse("  \t", true).is_none());
    assert!(IgnoreRule::parse("# note", true).is_none());
    assert_eq!(rule("# note", false).pattern, "# note");
    let parsed = rule(" !/target// ", true);
    assert_eq!(parsed.pattern, "target");
    assert!(parsed.negated);
    assert!(parsed.git_style);
    assert!(parsed.directory_only);
    let plain = rule("a/b", false);
    assert_eq!(plain.pattern, "a/b");
    assert!(!plain.negated && !plain.git_style && !plain.directory_only);
}

#[test]
fn a_rule_for_directories_leaves_files_alone() {
    let parsed = rule("target/", true);
    assert!(!parsed.matches("target", false, here()).unwrap());
    assert!(parsed.matches("target", true, here()).unwrap());
    assert!(parsed.matches("a/target/b", true, here()).unwrap());
}

#[test]
fn a_rule_without_a_slash_tests_every_name() {
    assert!(rule("sub", true).matches("a/sub/b.txt", false, here()).unwrap());
    assert!(!rule("sub", false).matches("a/sub/b.txt", false, here()).unwrap());
    assert!(rule("a/sub", false).matches("a/sub/b.txt", false, here()).unwrap());
}

#[test]
fn prefixes_of_a_path() {
    assert_eq!(path_prefixes("a/b/c"), vec!["a", "a/b", "a/b/c"]);
    assert_eq!(path_prefixes(""), vec![""]);
    assert_eq!(path_prefixes("/a"), vec!["", "/a"]);
}

#[test]
fn stars_do_not_cross_slashes() {
    assert!(glob_matches("*.rs", "a.rs", here()).unwrap());
    assert!(!glob_matches("*.rs", "a/b.rs", here()).unwrap());
    assert!(glob_matches("**/*.rs", "a/b.rs", here()).unwrap());
    assert!(!glob_matches("a?b", "a/b", here()).unwrap());
}

#[test]
fn bad_globs_are_refused() {
    match glob_matches("a[", "a", here()) {
        Err(AppError::Glob { pattern, .. }) => assert_eq!(pattern, "a["),
        other => panic!("{other:?}"),
    }
    match glob_matches("a!(b", "a", here()) {
        Err(AppError::Message(text)) => assert_eq!(text, "Unsupported ignore pattern: a!(b"),
        other => panic!("{other:?}"),
    }
    match negated_extglob_matches("a", "a", here()) {
        Err(AppError::Message(text)) => assert_eq!(text, "Unsupported ignore pattern: a"),
        other => panic!("{other:?}"),
    }
    assert!(rule("a[", false).matches("a", false, here()).is_err());
    assert!(is_ignored("a", false, &vec![rule("a[", false)], here()).is_err());
}

#[test]
fn a_glob_too_large_to_compile_is_an_error() {
    let pattern = "{a,b}".repeat(200_000);
    assert!(glob_matches(&pattern, "a", here()).is_err());
}

#[test]
fn fragments_become_expressions() {
    assert_eq!(glob_fragment_regex("**/a.?*"), "(?:.*/)?a\\.[^/][^/]*");
    assert_eq!(glob_fragment_regex("a**b"), "a.*b");
    assert_eq!(glob_fragment_regex("***/"), ".*[^/]*/");
    assert_eq!(glob_fragment_regex("\u{e9}+"), "\u{e9}\\+");
    assert_eq!(glob_fragment_regex(""), "");
}

#[test]
fn a_captured_group_is_negated() {
    let took = |text: &str| Ok(Some(Some(text.to_owned())));
    assert!(!negate_group("p", "a*", took("ab"), here()).unwrap());
    assert!(negate_group("p", "a*", took("b"), here()).unwrap());
    assert!(!negate_group("p", "a*", Ok(None), here()).unwrap());
    assert!(negate_group("p", "a*", Ok(Some(None)), here()).unwrap());
    assert!(negate_group("p", "[", took("b"), here()).is_err());
    let refused = regex_search("(", "x").unwrap_err();
    let expected = refused.to_string();
    match negate_group("p", "a*", Err(refused), here()) {
        Err(AppError::Regex { pattern, source }) => {
            assert_eq!(pattern, "p");
            assert_eq!(source.to_string(), expected);
        }
        other => panic!("{other:?}"),
    }
}

#[test]
fn a_tested_glob_is_answered() {
    assert!(plain_answer("p", Ok(Ok(true))).unwrap());
    assert!(!plain_answer("p", Ok(Ok(false))).unwrap());
    let refused = globset::Glob::new("a[").unwrap_err();
    let expected = refused.to_string();
    match plain_answer("p", Err(refused)) {
        Err(AppError::Glob { pattern, source }) => {
            assert_eq!(pattern, "p");
            assert_eq!(source.to_string(), expected);
        }
        other => panic!("{other:?}"),
    }
    let refused = regex_search("(", "x").unwrap_err();
    let expected = refused.to_string();
    match plain_answer("p", Ok(Err(refused))) {
        Err(AppError::Regex { pattern, source }) => {
            assert_eq!(pattern, "p");
            assert_eq!(source.to_string(), expected);
        }
        other => panic!("{other:?}"),
    }
}

#[test]
fn default_rules_stand_last() {
    let rules = load_rules(&config(vec!["!a.json", "", "x"], false), Some("# n\n*.rs\r\n\n"))
        .unwrap();
    assert_eq!(rules.len(), 3 + default_ignores().len());
    assert_eq!(rules[0].pattern, "*.rs");
    assert!(rules[0].git_style);
    assert_eq!(rules[1].pattern, "a.json");
    assert!(rules[1].negated && !rules[1].git_style);
    assert_eq!(rules[3].pattern, "**/node_modules");
    assert!(is_ignored("a.json", false, &rules, here()).unwrap());
    assert!(is_ignored("deep/node_modules/a.js", false, &rules, here()).unwrap());
    assert!(is_ignored("LICENSE.md", false, &rules, here()).unwrap());
    assert!(!is_ignored("b.js", false, &rules, here()).unwrap());
    assert_eq!(load_rules(&config(vec!["x"], true), None).unwrap().len(), 1);
}

#[test]
fn entries_are_kept_or_passed_over() {
    let rules = vec![rule("*.md", true)];
    assert!(keep_entry("a.rs", true, &None, &rules, here()).unwrap());
    assert!(!keep_entry("a.md", true, &None, &rules, here()).unwrap());
    assert!(!keep_entry("a.rs", false, &None, &rules, here()).unwrap());
    assert!(!keep_entry(".ignored", true, &Some(".ignored".to_owned()), &rules, here()).unwrap());
    assert!(keep_entry(".ignored", true, &Some("other".to_owned()), &rules, here()).unwrap());
    assert!(keep_entry("a", true, &None, &vec![rule("[", false)], here()).is_err());
    assert!(!keep_entry("a", true, &Some("a".to_owned()), &vec![rule("[", false)], here()).unwrap());
}

#[test]
fn a_rule_with_a_backslash_leaves_the_others_their_say() {
    let rules = vec![rule("no\\where", false), rule("*.txt", true), rule("!b.txt", true)];
    assert!(is_ignored("a.txt", false, &rules, here()).unwrap());
    assert!(!is_ignored("b.txt", false, &rules, here()).unwrap());
    assert!(!is_ignored("a.rs", false, &rules, here()).unwrap());
    assert!(!keep_entry("sub", false, &None, &rules, here()).unwrap());
    assert!(keep_entry("a.rs", true, &None, &rules, here()).unwrap());
    assert!(!glob_matches("x\\y!(a)", "z", here()).unwrap());
}

#[test]
fn the_first_fault_is_the_answer() {
    let rules = vec![rule("*", true), rule("a[", false), rule("b!(", false)];
    match is_ignored("x", false, &rules, here()) {
        Err(AppError::Glob { pattern, .. }) => assert_eq!(pattern, "a["),
        other => panic!("{other:?}"),
    }
}

#[test]
fn an_answer_overrules_what_was_said_before() {
    let plain = rule("a", false);
    let negated = rule("!a", false);
    assert!(overrule(false, &plain, Ok(true)).unwrap());
    assert!(!overrule(true, &negated, Ok(true)).unwrap());
    assert!(overrule(true, &negated, Ok(false)).unwrap());
    assert!(!overrule(false, &plain, Ok(false)).unwrap());
    assert!(overrule(true, &plain, Err(AppError::Message("x".to_owned()))).is_err());
}

#[test]
fn a_match_holds_for_everything_below() {
    for raw in ["sub", "a/sub", "**/sub"] {
        for git_style in [false, true] {
            let parsed = rule(raw, git_style);
            if parsed.matches("a/sub", false, here()).unwrap() {
                assert!(parsed.matches("a/sub/b", false, here()).unwrap());
                assert!(parsed.matches("a/sub/b/c.txt", false, here()).unwrap());
                assert!(parsed.matches("a/sub/", false, here()).unwrap());
            }
        }
    }
    assert!(rule("**/sub", false).matches("a/sub/b/c.txt", false, here()).unwrap());
}

#[test]
fn no_rule_brings_a_default_ignored_file_back() {
    let rules = load_rules(&config(vec!["!**/*.json"], false), Some("!dist/\n!*.js\n")).unwrap();
    assert!(is_ignored("a/b.json", false, &rules, here()).unwrap());
    assert!(is_ignored("dist/b.js", false, &rules, here()).unwrap());
    assert!(!is_ignored("src/b.js", false, &rules, here()).unwrap());
    let own = load_rules(&config(vec!["!**/*.json"], true), Some("!dist/\n!*.js\n")).unwrap();
    assert!(!is_ignored("a/b.json", false, &own, here()).unwrap());
}

#[test]
fn a_backslash_means_what_the_platform_makes_of_it() {
    let separates = std::path::is_separator('\\');
    assert_eq!(glob_matches("a\\b", "a/b", here()).unwrap(), separates);
    assert_eq!(glob_matches("a\\*", "a\\b", here()).unwrap(), true);
    assert_eq!(rule("a\\b", false).matches("a/b/c", false, here()).unwrap(), separates);
}
