use license_check_and_add::config::{default_format, Config, RegexConfig};
use license_check_and_add::format::{
    each_line, format_key_name, trim_license_line_endings, wrapped, Formatted, Formatter,
};
use license_check_and_add::paths::Location;
use license_check_and_add::text::Eol;
use license_check_and_add::{Format, LineFormat};

fn config(license_formats: Vec<(String, Format)>, trim: bool) -> Config {
    Config {
        default_format: Format::default(),
        ignore_default_ignores: true,
        ignore: Vec::new(),
        ignore_file: None,
        license: String::new(),
        license_formats,
        output: None,
        regex: None,
        trim_trailing_whitespace: trim,
    }
}

fn text(formatted: Formatted) -> String {
    match formatted {
        Formatted::Text(text) => text,
        Formatted::File(location) => panic!("{location:?}"),
    }
}

#[test]
fn formats_each_line_and_trims_generated_whitespace() {
    let format = Format {
        each_line: Some(LineFormat {
            append: None,
            prepend: Some("# ".to_owned()),
        }),
        ..Format::default()
    };
    let config = config(vec![("txt".to_owned(), format)], true);
    let formatter = Formatter::new(&config);
    for eol in [Eol::Lf, Eol::CrLf] {
        assert_eq!(
            text(formatter.format(".txt", "license\nwith\n\nblank\n", eol)),
            ["# license", "# with", "#", "# blank"].join(eol.as_str())
        );
    }
}

#[test]
fn keeps_generated_whitespace_without_trim() {
    let config = config(Vec::new(), false);
    let formatter = Formatter::new(&config);
    assert_eq!(
        text(formatter.format(".sh", "\r\n\nlicense\n\nend\n\r\n", Eol::Lf)),
        "# license\n# \n# end"
    );
}

#[test]
fn built_in_formats() {
    let formatter = Formatter::new(&config(Vec::new(), false));
    for key in [".gitignore", ".npmignore", ".eslintignore", ".dockerignore", ".sh", ".py"] {
        assert_eq!(text(formatter.format(key, "a", Eol::Lf)), "# a");
    }
    for key in [".html", ".xml", ".svg"] {
        assert_eq!(text(formatter.format(key, "a", Eol::Lf)), "<!--\na\n-->");
    }
    for key in [
        ".js", ".ts", ".css", ".scss", ".less", ".php", ".as", ".c", ".java", ".cpp", ".go", ".cto",
        ".acl",
    ] {
        assert_eq!(text(formatter.format(key, "a", Eol::CrLf)), "/*\r\na\r\n*/");
    }
    assert_eq!(text(formatter.format(".txt", "a", Eol::Lf)), "a");
    assert_eq!(text(formatter.format(".rs", "a\r\nb", Eol::Lf)), "a\r\nb");
}

#[test]
fn later_declarations_replace_earlier_ones() {
    let declared = vec![
        ("js|^Makefile".to_owned(), each_line("// ", Some(" //"))),
        ("ts|js".to_owned(), wrapped("<", ">")),
    ];
    let config = Config {
        default_format: default_format(),
        ..config(declared, false)
    };
    let formatter = Formatter::new(&config);
    assert_eq!(text(formatter.format(".js", "a", Eol::Lf)), "<\na\n>");
    assert_eq!(text(formatter.format(".ts", "a", Eol::Lf)), "<\na\n>");
    assert_eq!(
        text(formatter.format("Makefile", "a\nb", Eol::Lf)),
        "// a //\n// b //"
    );
    assert_eq!(text(formatter.format(".css", "a", Eol::Lf)), "/*\na\n*/");
    assert_eq!(text(formatter.format(".unknown", "a", Eol::Lf)), "/*\na\n*/");
}

#[test]
fn a_format_may_name_a_file() {
    let format = Format {
        file: Some("headers/js.txt".to_owned()),
        prepend: Some("unused".to_owned()),
        ..Format::default()
    };
    let formatter = Formatter::new(&config(vec![("js".to_owned(), format)], false));
    match formatter.format(".js", "a", Eol::Lf) {
        Formatted::File(location) => {
            assert_eq!(location, Location::UnderRoot("headers/js.txt".to_owned()))
        }
        Formatted::Text(text) => panic!("{text}"),
    }
}

#[test]
fn names_of_format_keys() {
    assert_eq!(format_key_name("js"), ".js");
    assert_eq!(format_key_name("^Makefile"), "Makefile");
    assert_eq!(format_key_name("^^a"), "^a");
    assert_eq!(format_key_name(""), ".");
}

#[test]
fn takes_outer_line_endings_away() {
    assert_eq!(trim_license_line_endings("\n\r\na\n\nb\r\n\n"), "a\n\nb");
    assert_eq!(trim_license_line_endings("\r\n"), "");
    assert_eq!(trim_license_line_endings("\ra\r"), "\ra\r");
    assert_eq!(trim_license_line_endings("\n\u{e9}\n"), "\u{e9}");
    let once = trim_license_line_endings("\n\n x \r\n");
    assert_eq!(trim_license_line_endings(once), once);
}

#[test]
fn formats_are_copied_and_compared() {
    let format = each_line("# ", None);
    assert_eq!(format.clone(), format);
    assert_eq!(LineFormat::default().prepend, None);
    assert_eq!(wrapped("a", "b").append.as_deref(), Some("b"));
    let regex = RegexConfig {
        identifier: "##".to_owned(),
        replacements: Some(vec!["x".to_owned()]),
    };
    let copy = regex.clone();
    assert_eq!(copy.identifier, "##");
    assert_eq!(copy.replacements, Some(vec!["x".to_owned()]));
}
