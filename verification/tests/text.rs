use license_check_and_add::paths::{
    format_key, normalize_relative_path, place_path, resolve_path, FilePath, Location,
};
use license_check_and_add::text::{
    decimal_string, join, split_lines, split_listed, split_text, trim_end, trim_start, white_space,
    Eol, Trim,
};

fn path(full: &str, under_root: Option<&str>, name: Option<&str>, ext: Option<&str>) -> FilePath {
    FilePath {
        id: 0,
        full: full.to_owned(),
        under_root: under_root.map(str::to_owned),
        file_name: name.map(str::to_owned),
        extension: ext.map(str::to_owned),
    }
}

#[test]
fn white_space_is_that_of_unicode() {
    for c in '\u{0}'..=char::MAX {
        assert_eq!(white_space(c), c.is_whitespace(), "{c:?}");
    }
}

#[test]
fn decimals_are_those_of_std() {
    for number in [0, 7, 10, 105, u64::MAX as u128, u128::MAX] {
        assert_eq!(decimal_string(number), number.to_string());
    }
}

#[test]
fn splits_as_std_does() {
    for text in ["", "a", "a\n", "a\r\nb", "\r\r\n", "\n\n", "a\rb\r", "a\n\r\n"] {
        let expected: Vec<&str> = text.lines().collect();
        assert_eq!(split_listed(text), expected, "{text:?}");
        let flat = text.replace("\r\n", "\n");
        let expected: Vec<&str> = flat.split('\n').collect();
        assert_eq!(split_lines(text), expected, "{text:?}");
        for separator in ["", "a", "\n", "\r\n", "ab"] {
            let expected: Vec<&str> = text.split(separator).collect();
            assert_eq!(split_text(text, separator), expected, "{text:?} {separator:?}");
        }
    }
    assert_eq!(split_text("aXXXb", "XX"), vec!["a", "Xb"]);
}

#[test]
fn joined_lines_are_the_text() {
    let text = "a\n\nb \u{e9}\n";
    assert_eq!(join(&split_lines(text), Eol::Lf.as_str()), text);
    assert_eq!(join(&split_lines("a\r\nb"), Eol::CrLf.as_str()), "a\r\nb");
}

#[test]
fn trims_one_end() {
    assert_eq!(trim_end(" a \u{2003}\t", Trim::WhiteSpace), " a");
    assert_eq!(trim_start("//a/", Trim::Char('/')), "a/");
    assert_eq!(trim_end("//", Trim::Char('/')), "");
}

#[test]
fn paths_below_the_root() {
    let below = path("/r/./a\\b.rs", Some("./a\\b.rs"), Some("a\\b.rs"), Some("rs"));
    assert_eq!(normalize_relative_path(&below), "a/b.rs");
    let apart = path("././x/./y", None, None, None);
    assert_eq!(normalize_relative_path(&apart), "x/./y");
    assert_eq!(format_key(&below), ".rs");
    assert_eq!(format_key(&path("Makefile", None, Some("Makefile"), None)), "Makefile");
    assert_eq!(format_key(&path("..", None, None, None)), "");
}

#[test]
fn absolute_paths_are_taken_as_given() {
    assert_eq!(place_path("a", true), Location::AsGiven("a".to_owned()));
    assert_eq!(place_path("a", false), Location::UnderRoot("a".to_owned()));
    assert_eq!(resolve_path("a/b"), Location::UnderRoot("a/b".to_owned()));
    if std::path::Path::new("/a").is_absolute() {
        assert_eq!(resolve_path("/a"), Location::AsGiven("/a".to_owned()));
    }
}
