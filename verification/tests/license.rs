use license_check_and_add::config::{Config, RegexConfig};
use license_check_and_add::decide::{decide_file, judge_file, Verdict};
use license_check_and_add::license::{
    accept_value, apply_replacements, build_match_pattern, drop_block, insert_license,
    normalize_for_check, pick_value, remove_license, remove_matching_license, validate_markers,
};
use license_check_and_add::matcher::regex_search;
use license_check_and_add::text::Eol;
use license_check_and_add::{AppError, Format, Mode};
use regex::Regex;

fn marked(identifier: &str, replacements: Option<Vec<&str>>) -> RegexConfig {
    RegexConfig {
        identifier: identifier.to_owned(),
        replacements: replacements.map(|list| list.into_iter().map(str::to_owned).collect()),
    }
}

fn config(regex: Option<RegexConfig>, trim: bool) -> Config {
    Config {
        default_format: Format::default(),
        ignore_default_ignores: false,
        ignore: Vec::new(),
        ignore_file: None,
        license: String::new(),
        license_formats: Vec::new(),
        output: None,
        regex,
        trim_trailing_whitespace: trim,
    }
}

fn message(error: AppError) -> String {
    match error {
        AppError::Message(text) => text,
        other => panic!("{other:?}"),
    }
}

fn written(verdict: Result<Verdict, AppError>) -> String {
    match verdict {
        Ok(Verdict::Write(text)) => text,
        other => panic!("{other:?}"),
    }
}

#[test]
fn builds_literal_and_regex_parts() {
    let regex_config = RegexConfig {
        identifier: "##".to_owned(),
        replacements: None,
    };
    let pattern =
        build_match_pattern("Copyright (c) ##[0-9]{4}##", false, Some(&regex_config)).unwrap();
    assert!(Regex::new(&pattern).unwrap().is_match("Copyright (c) 2026"));
    assert!(!Regex::new(&pattern).unwrap().is_match("Copyright (c) 26"));
}

#[test]
fn replaces_markers_and_rejects_invalid_values() {
    let config = RegexConfig {
        identifier: "##".to_owned(),
        replacements: Some(vec!["bell002".to_owned(), "2021".to_owned()]),
    };
    for eol in [Eol::Lf, Eol::CrLf] {
        assert_eq!(
            apply_replacements("##[a-z]{4}[0-9]{3}## ##[0-9]{4}##", Some(&config), eol).unwrap(),
            "bell002 2021"
        );
    }
    let invalid = RegexConfig {
        replacements: Some(vec!["bellO02".to_owned(), "2021".to_owned()]),
        ..config
    };
    assert!(
        apply_replacements("##[a-z]{4}[0-9]{3}## ##[0-9]{4}##", Some(&invalid), Eol::Lf).is_err()
    );
}

#[test]
fn inserts_after_shebang_and_removes_first_matching_block() {
    for eol in [Eol::Lf, Eol::CrLf] {
        let end = eol.as_str();
        let contents = "#!/bin/sh\necho hi\n";
        let inserted = insert_license(contents, "# license", eol);
        assert_eq!(inserted, format!("#!/bin/sh{end}# license{end}echo hi\n"));
        let contents = "# license\nbody\n# license\nbody\n";
        assert!(remove_license(contents, "# license").unwrap());
        assert_eq!(
            remove_matching_license(contents, "# license", eol).unwrap(),
            format!("body{end}# license{end}body{end}")
        );
    }
}

#[test]
fn pattern_of_a_license_is_escaped() {
    assert_eq!(
        build_match_pattern("a.b \nc+(d)\r\n", false, None).unwrap(),
        "a\\.b\nc\\+\\(d\\)\n"
    );
    assert_eq!(
        build_match_pattern("\\.+*?()|[]{}^$#&-~ x", true, None).unwrap(),
        "\\\\\\.\\+\\*\\?\\(\\)\\|\\[\\]\\{\\}\\^\\$\\#\\&\\-\\~ x"
    );
    assert_eq!(
        build_match_pattern("a.##[0-9].##.", false, Some(&marked("##", None))).unwrap(),
        "a\\.[0-9].\\."
    );
}

#[test]
fn normal_form_drops_trailing_white_space_unless_trimmed_anyway() {
    let text = "a \t\r\nb\u{3000}\n\nc";
    assert_eq!(normalize_for_check(text, false, None).unwrap(), "a\nb\n\nc");
    assert_eq!(
        normalize_for_check(text, true, None).unwrap(),
        "a \t\nb\u{3000}\n\nc"
    );
    let once = normalize_for_check(text, false, None).unwrap();
    assert_eq!(normalize_for_check(&once, false, None).unwrap(), once);
}

#[test]
fn markers_must_be_closed_and_named() {
    assert!(validate_markers("a ##b## c", "##").is_ok());
    assert!(validate_markers("", "##").is_ok());
    assert_eq!(
        message(validate_markers("a ##b", "##").unwrap_err()),
        "Odd number of regex identifiers found. One must be missing its close"
    );
    assert_eq!(
        message(validate_markers("a", "").unwrap_err()),
        "Regex identifier cannot be empty"
    );
    assert_eq!(
        message(normalize_for_check("##", false, Some(&marked("##", None))).unwrap_err()),
        "Odd number of regex identifiers found. One must be missing its close"
    );
    assert_eq!(
        message(build_match_pattern("x", false, Some(&marked("", None))).unwrap_err()),
        "Regex identifier cannot be empty"
    );
}

#[test]
fn one_value_serves_every_marker() {
    let one = marked("%", Some(vec!["7"]));
    assert_eq!(
        apply_replacements("a %[0-9]% b\r\n%.%\n", Some(&one), Eol::CrLf).unwrap(),
        "a 7 b\r\n7\r\n"
    );
    assert_eq!(apply_replacements("a\r\n%b%", None, Eol::Lf).unwrap(), "a\r\n%b%");
}

#[test]
fn values_are_used_in_order_over_the_lines() {
    let two = marked("%", Some(vec!["1", "2"]));
    assert_eq!(
        apply_replacements("%[0-9]%\nx %[0-9]%", Some(&two), Eol::Lf).unwrap(),
        "1\nx 2"
    );
    assert_eq!(
        message(apply_replacements("%.%\n%.%\n%.%", Some(&two), Eol::Lf).unwrap_err()),
        "Too few replacement values passed. Found at least 3 regex values. Only have 2 replacements"
    );
    assert_eq!(
        message(apply_replacements("%.%", Some(&marked("%", None)), Eol::Lf).unwrap_err()),
        "Too few replacement values passed. Found at least 1 regex values. Only have 0 replacements"
    );
    assert_eq!(
        message(apply_replacements("%^[a-z]$%", Some(&two), Eol::Lf).unwrap_err()),
        "Replacement value 1 does not match regex it is to replace: ^[a-z]$"
    );
    match apply_replacements("%[%", Some(&two), Eol::Lf) {
        Err(AppError::Regex { pattern, .. }) => assert_eq!(pattern, "["),
        other => panic!("{other:?}"),
    }
}

#[test]
fn a_value_is_judged_by_what_the_search_said() {
    assert!(accept_value("a", "b", Ok(true)).is_ok());
    assert_eq!(
        message(accept_value("a", "b", Ok(false)).unwrap_err()),
        "Replacement value b does not match regex it is to replace: a"
    );
    let values = vec!["x".to_owned(), "y".to_owned()];
    assert_eq!(pick_value(&values, 1).unwrap(), "y");
    assert!(pick_value(&values, 2).is_err());
    assert_eq!(pick_value(&vec!["z".to_owned()], 5).unwrap(), "z");
}

#[test]
fn inserts_above_other_text() {
    assert_eq!(insert_license("body", "lic", Eol::Lf), "lic\nbody");
    assert_eq!(insert_license("", "lic", Eol::CrLf), "lic\r\n");
    assert_eq!(insert_license("#!x", "lic", Eol::Lf), "#!x\nlic\n");
    assert_eq!(insert_license("#!x\r\ny", "lic", Eol::Lf), "#!x\nlic\ny");
    assert_eq!(insert_license("#!x\ry", "lic", Eol::Lf), "#!x\nlic\ny");
    assert_eq!(insert_license("# !x\ny", "lic", Eol::Lf), "lic\n# !x\ny");
}

#[test]
fn removes_only_a_whole_block() {
    assert!(!remove_license("a\nb", "a\nc").unwrap());
    assert_eq!(remove_matching_license("a\r\nb", "a\nc", Eol::Lf).unwrap(), "a\r\nb");
    assert!(!remove_license("x\na", "a\nb").unwrap());
    assert_eq!(
        remove_matching_license("x\r\naa\r\nbb\r\ny", "a\nb", Eol::CrLf).unwrap(),
        "x\r\ny"
    );
    assert!(!remove_license("[", "[").unwrap());
    assert_eq!(remove_matching_license("a", "a", Eol::Lf).unwrap(), "");
    let file = vec!["a".to_owned(), "b".to_owned(), "c".to_owned()];
    assert_eq!(drop_block(&file, 1, 1, Eol::Lf), "a\nc");
}

#[test]
fn searches_for_patterns() {
    assert!(regex_search("b+", "abbc").unwrap());
    assert!(!regex_search("^b+", "abbc").unwrap());
    assert!(regex_search("a\\.b", "xa.b").unwrap());
    assert!(!regex_search("a\\.b", "xacb").unwrap());
    assert!(regex_search("(", "x").is_err());
}

#[test]
fn a_file_is_judged() {
    let config = config(None, false);
    let license = "# license (c)";
    let text = written(judge_file(&config, Mode::Add, Eol::Lf, "body\n", license));
    assert_eq!(text, "# license (c)\nbody\n");
    for mode in [Mode::Add, Mode::Check] {
        assert!(matches!(
            judge_file(&config, mode, Eol::Lf, &text, license),
            Ok(Verdict::Nothing)
        ));
    }
    assert!(matches!(
        judge_file(&config, Mode::Check, Eol::Lf, "body\n", license),
        Ok(Verdict::Missing)
    ));
    assert!(matches!(
        judge_file(&config, Mode::Remove, Eol::Lf, "body\n", license),
        Ok(Verdict::Nothing)
    ));
    assert_eq!(
        written(judge_file(&config, Mode::Remove, Eol::Lf, &text, license)),
        "body\n"
    );
    assert!(matches!(
        judge_file(&config, Mode::Remove, Eol::Lf, "x # license (c)", license),
        Ok(Verdict::Nothing)
    ));
}

#[test]
fn adding_and_removing_keeps_a_shebang() {
    let config = config(None, true);
    for eol in [Eol::Lf, Eol::CrLf] {
        let end = eol.as_str();
        let before = format!("#!/bin/sh{end}run{end}");
        let text = written(judge_file(&config, Mode::Add, eol, &before, "# a\n# b"));
        assert_eq!(text, format!("#!/bin/sh{end}# a\n# b{end}run{end}"));
        let after = written(judge_file(&config, Mode::Remove, eol, &text, "# a\n# b"));
        assert_eq!(after, before);
    }
}

#[test]
fn line_endings_of_a_file_do_not_matter() {
    let config = config(None, false);
    for contents in ["a\nb\nbody", "a\r\nb\r\nbody", "a  \r\nb\nbody"] {
        assert!(matches!(
            judge_file(&config, Mode::Check, Eol::Lf, contents, "a\nb"),
            Ok(Verdict::Nothing)
        ));
    }
}

#[test]
fn markers_are_searched_and_replaced() {
    let values = marked("##", Some(vec!["2021"]));
    let config = config(Some(values), false);
    let license = "(c) ##[0-9]{4}## me";
    let text = written(judge_file(&config, Mode::Add, Eol::Lf, "body", license));
    assert_eq!(text, "(c) 2021 me\nbody");
    assert!(matches!(
        judge_file(&config, Mode::Check, Eol::Lf, "(c) 1999 me", license),
        Ok(Verdict::Nothing)
    ));
    assert!(judge_file(&config, Mode::Check, Eol::Lf, "##", license).is_err());
    match judge_file(&config, Mode::Check, Eol::Lf, "x", "##(##") {
        Err(AppError::Regex { pattern, .. }) => assert_eq!(pattern, "("),
        other => panic!("{other:?}"),
    }
}

#[test]
fn a_license_without_markers_is_found_while_markers_are_in_use() {
    let config = config(Some(marked("##", Some(vec!["x"]))), false);
    let text = written(judge_file(&config, Mode::Add, Eol::CrLf, "body", "a.\nb"));
    assert_eq!(text, "a.\r\nb\r\nbody");
    assert!(matches!(
        judge_file(&config, Mode::Check, Eol::CrLf, &text, "a.\nb"),
        Ok(Verdict::Nothing)
    ));
}

#[test]
fn a_search_result_decides() {
    let add = decide_file(Mode::Add, Eol::Lf, None, "b", "l", "l", Ok(false));
    assert_eq!(written(add), "l\nb");
    let missing = decide_file(Mode::Check, Eol::Lf, None, "b", "l", "l", Ok(false));
    assert!(matches!(missing, Ok(Verdict::Missing)));
    let nothing = decide_file(Mode::Check, Eol::Lf, None, "b", "l", "l", Ok(true));
    assert!(matches!(nothing, Ok(Verdict::Nothing)));
    let removed = decide_file(Mode::Remove, Eol::Lf, None, "l\nb", "l", "l", Ok(true));
    assert_eq!(written(removed), "b");
    let refused = regex_search("(", "x");
    match decide_file(Mode::Check, Eol::Lf, None, "b", "l", "(", refused) {
        Err(AppError::Regex { pattern, .. }) => assert_eq!(pattern, "("),
        other => panic!("{other:?}"),
    }
}

#[test]
fn a_refused_pattern_is_the_source_of_the_error() {
    let expected = regex_search("(", "x").unwrap_err().to_string();
    match accept_value("(", "b", regex_search("(", "x")) {
        Err(AppError::Regex { pattern, source }) => {
            assert_eq!(pattern, "(");
            assert_eq!(source.to_string(), expected);
        }
        other => panic!("{other:?}"),
    }
}

#[test]
fn removing_takes_away_what_was_inserted_at_the_top() {
    for license in ["a.b  \nc", "", "one line"] {
        for trim in [false, true] {
            let pattern = build_match_pattern(license, trim, None).unwrap();
            for contents in ["body\n", "", "x\r\ny"] {
                let text = insert_license(contents, license, Eol::Lf);
                assert!(remove_license(&text, &pattern).unwrap());
                assert_eq!(
                    remove_matching_license(&text, &pattern, Eol::Lf).unwrap(),
                    contents.replace("\r\n", "\n")
                );
            }
        }
    }
}
