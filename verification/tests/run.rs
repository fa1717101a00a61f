use license_check_and_add::config::{load_config, InputConfig};
use license_check_and_add::paths::{FilePath, Location};
use license_check_and_add::report::{missing_lines, report_line};
use license_check_and_add::platform::Platform;
use license_check_and_add::run::{Event, Request};
use license_check_and_add::text::Eol;
use license_check_and_add::{execute, AppError, Format, LineFormat, Mode, Report};
use serde_json::Value;

/// A directory in memory.
struct Directory {
    files: Vec<(String, String)>,
}

impl Directory {
    fn new(files: Vec<(&str, &str)>) -> Directory {
        Directory {
            files: files
                .into_iter()
                .map(|(name, text)| (name.to_owned(), text.to_owned()))
                .collect(),
        }
    }

    fn text(&self, name: &str) -> String {
        self.files.iter().find(|file| file.0 == name).unwrap().1.clone()
    }

    fn read(&self, location: &Location) -> Event {
        let name = match location {
            Location::AsGiven(path) => path,
            Location::UnderRoot(path) => path,
        };
        match self.files.iter().find(|file| &file.0 == name) {
            Some(file) => Event::Text(file.1.clone()),
            None => Event::Failed(AppError::Io(std::io::Error::other("no such file"))),
        }
    }

    fn write(&mut self, name: &str, text: String) -> Event {
        match self.files.iter_mut().find(|file| file.0 == name) {
            Some(file) => file.1 = text,
            None => self.files.push((name.to_owned(), text)),
        }
        Event::Written
    }

    fn path(&self, id: usize) -> FilePath {
        let relative = &self.files[id].0;
        let name = relative.rsplit('/').next().unwrap();
        let extension = match name.rfind('.') {
            Some(at) if at > 0 => Some(name[at + 1..].to_owned()),
            _ => None,
        };
        FilePath {
            id,
            full: format!("/root/{relative}"),
            under_root: Some(relative.clone()),
            file_name: Some(name.to_owned()),
            extension,
        }
    }

    fn run(
        &mut self,
        config: &str,
        mode: Mode,
        replacements: Option<Vec<String>>,
        eol: Eol,
    ) -> Result<Report, AppError> {
        let mut run = execute(config, mode, replacements, eol, Platform::here());
        let mut walked: usize = 0;
        let count = self.files.len();
        loop {
            let event = match run.request() {
                Request::ReadConfig(location) => match self.read(&location) {
                    Event::Text(text) => match serde_json::from_str::<Value>(&text) {
                        Ok(value) => Event::Config(input(&value)),
                        Err(error) => Event::Failed(AppError::Json(error)),
                    },
                    other => other,
                },
                Request::ReadLicense(location) => self.read(&location),
                Request::ReadFormat(location) => self.read(&location),
                Request::ReadIgnoreFile(location) => match (self.read(&location), location) {
                    (Event::Text(text), Location::UnderRoot(path)) => {
                        let id = self.files.iter().position(|file| file.0 == path).unwrap();
                        Event::IgnoreFile(text, self.path(id))
                    }
                    (other, _) => other,
                },
                Request::NextEntry => {
                    if walked < count {
                        walked += 1;
                        Event::Entry(self.path(walked - 1), true)
                    } else {
                        Event::WalkEnded
                    }
                }
                Request::ReadFile(path) => Event::Text(self.files[path.id].1.clone()),
                Request::WriteFile(path, text) => {
                    let name = self.files[path.id].0.clone();
                    self.write(&name, text)
                }
                Request::WriteOutput(Location::UnderRoot(name), text) => self.write(&name, text),
                Request::WriteOutput(location, _) => panic!("{location:?}"),
                Request::Finish => break,
            };
            run = run.step(event);
        }
        run.result().unwrap()
    }
}

fn string(value: &Value, key: &str) -> Option<String> {
    value.get(key).and_then(Value::as_str).map(str::to_owned)
}

fn format(value: &Value) -> Format {
    Format {
        append: string(value, "append"),
        prepend: string(value, "prepend"),
        each_line: value.get("eachLine").map(|line| LineFormat {
            append: string(line, "append"),
            prepend: string(line, "prepend"),
        }),
        file: string(value, "file"),
    }
}

fn input(value: &Value) -> InputConfig {
    InputConfig {
        license: string(value, "license"),
        ignore_default_ignores: value.get("ignoreDefaultIgnores").and_then(Value::as_bool),
        ignore: value.get("ignore").and_then(Value::as_array).map(|list| {
            list.iter().map(|item| item.as_str().unwrap().to_owned()).collect()
        }),
        ignore_file: string(value, "ignoreFile"),
        trailing_whitespace: string(value, "trailingWhitespace"),
        output: string(value, "output"),
        regex_identifier: string(value, "regexIdentifier"),
        default_format: value.get("defaultFormat").map(format),
        license_formats: value.get("licenseFormats").and_then(Value::as_object).map(|map| {
            map.iter().map(|(key, value)| (key.clone(), format(value))).collect()
        }),
    }
}

#[test]
fn executes_add_check_and_remove() {
    let mut directory = Directory::new(vec![
        ("LICENSE", "license text\n"),
        ("file.txt", "body\n"),
        (
            "config.json",
            r#"{"license":"LICENSE","ignore":["config.json"],"licenseFormats":{"txt":{}}}"#,
        ),
    ]);
    let report = directory.run("config.json", Mode::Add, None, Eol::Lf).unwrap();
    assert_eq!(report.inserted, vec!["file.txt"]);
    assert_eq!(directory.text("file.txt"), "license text\nbody\n");
    let report = directory.run("config.json", Mode::Check, None, Eol::Lf).unwrap();
    assert!(report.missing.is_empty());
    let report = directory.run("config.json", Mode::Remove, None, Eol::Lf).unwrap();
    assert_eq!(report.removed.len(), 1);
    assert_eq!(directory.text("file.txt"), "body\n");
}

#[test]
fn a_check_reports_the_files_that_miss_the_license() {
    let mut directory = Directory::new(vec![
        ("LICENSE", "lic"),
        ("a.sh", "#!/bin/sh\n"),
        ("b.js", "/*\nlic\n*/\n"),
        ("c.js", "run()"),
        ("config.json", r#"{"license":"LICENSE","output":"out.log"}"#),
    ]);
    let before = directory.files.clone();
    match directory.run("config.json", Mode::Check, None, Eol::CrLf) {
        Err(AppError::CheckFailed { count, missing }) => {
            assert_eq!(count, 2);
            assert_eq!(missing, vec!["a.sh", "c.js"]);
            let error = AppError::CheckFailed { count, missing };
            assert_eq!(
                error.message(""),
                "License check failed. 2 file(s) did not have the license."
            );
            assert_eq!(
                missing_lines(&error),
                vec![
                    "\x1b[31m\u{2717}\x1b[0m License not found in a.sh",
                    "\x1b[31m\u{2717}\x1b[0m License not found in c.js",
                ]
            );
        }
        other => panic!("{other:?}"),
    }
    assert_eq!(directory.text("out.log"), "a.sh\r\nc.js");
    assert_eq!(directory.files[..before.len()], before[..]);
}

#[test]
fn adding_twice_changes_nothing_more() {
    let mut directory = Directory::new(vec![
        ("LICENSE", "one\ntwo\n"),
        ("a.sh", "#!/bin/sh\nrun\n"),
        ("b.html", "<p>\r\n"),
        ("c.unknown", ""),
        ("config.json", r#"{"license":"LICENSE"}"#),
    ]);
    let report = directory.run("config.json", Mode::Add, None, Eol::Lf).unwrap();
    assert_eq!(report.inserted, vec!["a.sh", "b.html", "c.unknown"]);
    assert_eq!(directory.text("a.sh"), "#!/bin/sh\n# one\n# two\nrun\n");
    assert_eq!(directory.text("b.html"), "<!--\none\ntwo\n-->\n<p>\r\n");
    assert_eq!(directory.text("c.unknown"), "/*\none\ntwo\n*/\n");
    let before = directory.files.clone();
    let report = directory.run("config.json", Mode::Add, None, Eol::Lf).unwrap();
    assert!(report.inserted.is_empty());
    assert_eq!(directory.files, before);
}

#[test]
fn ignored_files_are_left_alone() {
    let mut directory = Directory::new(vec![
        ("LICENSE", "lic"),
        (".skip", "*.md\n!keep.md\n"),
        ("a.md", ""),
        ("keep.md", ""),
        ("dist/b.js", ""),
        ("config.json", r#"{"license":"LICENSE","ignoreFile":".skip"}"#),
    ]);
    let report = directory.run("config.json", Mode::Add, None, Eol::Lf).unwrap();
    assert_eq!(report.inserted, vec!["keep.md"]);
}

#[test]
fn a_format_may_be_read_from_a_file() {
    let mut directory = Directory::new(vec![
        ("LICENSE", "lic"),
        ("head.json", "from a file"),
        ("a.js", "x"),
        ("b.js", "y"),
        (
            "config.json",
            r#"{"license":"LICENSE","licenseFormats":{"js":{"file":"head.json"}}}"#,
        ),
    ]);
    let report = directory.run("config.json", Mode::Add, None, Eol::Lf).unwrap();
    assert_eq!(report.inserted, vec!["a.js", "b.js"]);
    assert_eq!(directory.text("b.js"), "from a file\ny");
}

#[test]
fn markers_are_replaced_when_adding() {
    let config = r###"{"license":"LICENSE","regexIdentifier":"##","trailingWhitespace":"trim"}"###;
    let mut directory = Directory::new(vec![
        ("LICENSE", "(c) ##[0-9]{4}##"),
        ("a.sh", "x"),
        ("config.json", config),
    ]);
    let values = Some(vec!["2021".to_owned()]);
    let report = directory.run("config.json", Mode::Add, values, Eol::Lf).unwrap();
    assert_eq!(report.inserted, vec!["a.sh"]);
    assert_eq!(directory.text("a.sh"), "# (c) 2021\nx");
    assert!(directory.run("config.json", Mode::Check, None, Eol::Lf).is_ok());
    match directory.run("config.json", Mode::Add, None, Eol::Lf) {
        Err(AppError::Message(text)) => assert_eq!(
            text,
            "Must supply regexReplacements option when using regexIdentifier in config when in \
             INSERT mode"
        ),
        other => panic!("{other:?}"),
    }
}

#[test]
fn a_fault_in_a_file_stops_the_run() {
    let config = r###"{"license":"LICENSE","regexIdentifier":"##"}"###;
    let mut directory = Directory::new(vec![
        ("LICENSE", "lic"),
        ("a.txt", "a"),
        ("b.txt", "open ##"),
        ("c.txt", "c"),
        ("config.json", config),
    ]);
    let values = Some(vec!["1".to_owned()]);
    match directory.run("config.json", Mode::Add, values, Eol::Lf) {
        Err(AppError::Message(text)) => assert_eq!(
            text,
            "Odd number of regex identifiers found. One must be missing its close"
        ),
        other => panic!("{other:?}"),
    }
    assert_eq!(directory.text("a.txt"), "lic\na");
    assert_eq!(directory.text("b.txt"), "open ##");
    assert_eq!(directory.text("c.txt"), "c");
}

#[test]
fn failures_end_the_run() {
    let mut directory = Directory::new(vec![
        ("empty.json", "{}"),
        ("bad.json", "{"),
        ("lost.json", r#"{"license":"NONE"}"#),
        ("LICENSE", "lic"),
        ("glob.json", r#"{"license":"LICENSE","ignore":["a["]}"#),
    ]);
    match directory.run("empty.json", Mode::Check, None, Eol::Lf) {
        Err(AppError::Message(text)) => {
            assert_eq!(text, "Missing required field in config: license")
        }
        other => panic!("{other:?}"),
    }
    assert!(matches!(
        directory.run("bad.json", Mode::Check, None, Eol::Lf),
        Err(AppError::Json(_))
    ));
    assert!(matches!(
        directory.run("lost.json", Mode::Check, None, Eol::Lf),
        Err(AppError::Io(_))
    ));
    assert!(matches!(
        directory.run("none.json", Mode::Check, None, Eol::Lf),
        Err(AppError::Io(_))
    ));
    assert!(matches!(
        directory.run("glob.json", Mode::Check, None, Eol::Lf),
        Err(AppError::Glob { .. })
    ));
}

#[test]
fn errors_have_a_message() {
    let io = AppError::Io(std::io::Error::other("why"));
    assert_eq!(io.message("why"), "I/O error: why");
    let json = AppError::Json(serde_json::from_str::<Value>("{").unwrap_err());
    assert_eq!(json.message("why"), "Invalid JSON: why");
    let source = globset::Glob::new("a[").unwrap_err();
    let glob = AppError::Glob { pattern: "a[".to_owned(), source };
    assert_eq!(glob.message("why"), "Invalid glob pattern `a[`: why");
    let source = regex::Regex::new("(").unwrap_err();
    let regex = AppError::Regex { pattern: "(".to_owned(), source };
    assert_eq!(regex.message("why"), "Invalid regex `(`: why");
    assert_eq!(AppError::Message("text".to_owned()).message(""), "text");
    assert!(missing_lines(&io).is_empty());
}

#[test]
fn a_report_has_a_line() {
    let mut report = Report::default();
    report.note(Mode::Add, "a".to_owned());
    report.note(Mode::Remove, "b".to_owned());
    report.note(Mode::Remove, "c".to_owned());
    assert_eq!(
        report_line(&report, Mode::Add),
        "\x1b[33m!\x1b[0m Inserted license into 1 file(s)"
    );
    assert_eq!(
        report_line(&report, Mode::Check),
        "\x1b[32m\u{2714}\x1b[0m All files have licenses."
    );
    assert_eq!(
        report_line(&report, Mode::Remove),
        "\x1b[32m\u{2714}\x1b[0m Removed license from 2 file(s)."
    );
    assert_eq!(report.listing(Mode::Remove, Eol::CrLf), "b\r\nc");
    assert_eq!(report.listing(Mode::Check, Eol::Lf), "");
    assert_eq!(report.close(Mode::Check).unwrap().inserted, vec!["a"]);
}

#[test]
fn a_configuration_is_loaded() {
    let value: Value = serde_json::from_str(
        r#"{"license":"L","trailingWhitespace":"tRiM","output":"o","regexIdentifier":"%"}"#,
    )
    .unwrap();
    let (config, license) = load_config(input(&value), Mode::Check, None).unwrap();
    assert_eq!(license, Location::UnderRoot("L".to_owned()));
    assert!(config.trim_trailing_whitespace);
    assert!(!config.ignore_default_ignores);
    assert!(config.ignore.is_empty());
    assert_eq!(config.output, Some(Location::UnderRoot("o".to_owned())));
    assert_eq!(config.regex.unwrap().identifier, "%");
    assert_eq!(config.default_format.prepend.as_deref(), Some("/*"));
    assert_eq!(config.default_format.append.as_deref(), Some("*/"));
    let value: Value = serde_json::from_str(
        r#"{"license":"L","trailingWhitespace":"TRIMMED","ignoreDefaultIgnores":true}"#,
    )
    .unwrap();
    let (config, _) = load_config(input(&value), Mode::Add, None).unwrap();
    assert!(!config.trim_trailing_whitespace);
    assert!(config.ignore_default_ignores);
    assert!(config.regex.is_none());
}

/// Answers a run that walks the given entries, with one file in memory.
fn drive_one(mode: Mode, names: usize, contents: &mut String) -> Result<Report, AppError> {
    let path = FilePath {
        id: 0,
        full: "/root/a.txt".to_owned(),
        under_root: Some("a.txt".to_owned()),
        file_name: Some("a.txt".to_owned()),
        extension: Some("txt".to_owned()),
    };
    let config: Value = serde_json::from_str(r#"{"license":"/LICENSE"}"#).unwrap();
    let mut run = execute("config.json", mode, None, Eol::Lf, Platform::here());
    let mut walked: usize = 0;
    loop {
        let event = match run.request() {
            Request::ReadConfig(location) => {
                assert_eq!(location, Location::UnderRoot("config.json".to_owned()));
                Event::Config(input(&config))
            }
            Request::ReadLicense(location) => {
                if std::path::Path::new("/LICENSE").is_absolute() {
                    assert_eq!(location, Location::AsGiven("/LICENSE".to_owned()));
                }
                Event::Text("lic".to_owned())
            }
            Request::NextEntry if walked < names => {
                walked += 1;
                Event::Entry(path.clone(), true)
            }
            Request::NextEntry => Event::WalkEnded,
            Request::ReadFile(_) => Event::Text(contents.clone()),
            Request::WriteFile(_, text) => {
                *contents = text;
                Event::Written
            }
            Request::Finish => break,
            other => panic!("{other:?}"),
        };
        run = run.step(event);
    }
    run.result().unwrap()
}

#[test]
fn a_file_that_is_named_twice_gets_one_license() {
    let mut contents = "body\n".to_owned();
    let report = drive_one(Mode::Add, 2, &mut contents).unwrap();
    assert_eq!(report.inserted, vec!["a.txt"]);
    assert_eq!(contents, "lic\nbody\n");
    assert!(drive_one(Mode::Check, 2, &mut contents).unwrap().missing.is_empty());
    let report = drive_one(Mode::Remove, 2, &mut contents).unwrap();
    assert_eq!(report.removed, vec!["a.txt"]);
    assert_eq!(contents, "body\n");
}
