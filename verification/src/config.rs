//! The configuration.
use vstd::prelude::*;

use crate::error::{AppError, Fault};
use crate::paths::{resolve_path, Location};
use crate::text::{copy_list, copy_opt, opt_text, texts, to_chars};

verus! {

/// What a run does.
#[derive(Clone, Copy, Debug, PartialEq, Eq, Structural)]
pub enum Mode {
    /// Reports the files without the license.
    Check,
    /// Adds the license to the files without it.
    Add,
    /// Removes the license from the files that have it.
    Remove,
}

/// What is put round each line of the license.
#[derive(Debug, PartialEq)]
pub struct LineFormat {
    pub append: Option<String>,
    pub prepend: Option<String>,
}

/// How the license is written in one kind of file.
#[derive(Debug, PartialEq)]
pub struct Format {
    /// A line after the license.
    pub append: Option<String>,
    /// A line before the license.
    pub prepend: Option<String>,
    /// What is put round each line.
    pub each_line: Option<LineFormat>,
    /// A file that holds the license as it is to be written.
    pub file: Option<String>,
}

/// The texts of a line format.
pub struct LineFormatView {
    pub append: Option<Seq<char>>,
    pub prepend: Option<Seq<char>>,
}

/// The texts of a format.
pub struct FormatView {
    pub append: Option<Seq<char>>,
    pub prepend: Option<Seq<char>>,
    pub each_line: Option<LineFormatView>,
    pub file: Option<Seq<char>>,
}

impl View for LineFormat {
    type V = LineFormatView;

    open spec fn view(&self) -> LineFormatView {
        LineFormatView { append: opt_text(self.append), prepend: opt_text(self.prepend) }
    }
}

impl View for Format {
    type V = FormatView;

    open spec fn view(&self) -> FormatView {
        FormatView {
            append: opt_text(self.append),
            prepend: opt_text(self.prepend),
            each_line: match self.each_line {
                Some(line) => Some(line@),
                None => None,
            },
            file: opt_text(self.file),
        }
    }
}

/// The format that adds nothing.
pub open spec fn bare_format() -> FormatView {
    FormatView { append: None, prepend: None, each_line: None, file: None }
}

impl Default for LineFormat {
    fn default() -> (format: LineFormat)
        ensures
            format@ == (LineFormatView { append: None, prepend: None }),
    {
        LineFormat { append: None, prepend: None }
    }
}

impl Default for Format {
    fn default() -> (format: Format)
        ensures
            format@ == bare_format(),
    {
        Format { append: None, prepend: None, each_line: None, file: None }
    }
}

impl Clone for LineFormat {
    fn clone(&self) -> (copy: LineFormat)
        ensures
            copy@ == self@,
    {
        LineFormat { append: copy_opt(&self.append), prepend: copy_opt(&self.prepend) }
    }
}

impl Clone for Format {
    fn clone(&self) -> (copy: Format)
        ensures
            copy@ == self@,
    {
        Format {
            append: copy_opt(&self.append),
            prepend: copy_opt(&self.prepend),
            each_line: match &self.each_line {
                Some(line) => Some(line.clone()),
                None => None,
            },
            file: copy_opt(&self.file),
        }
    }
}

/// The markers in the license that stand for regular expressions.
#[derive(Debug)]
pub struct RegexConfig {
    /// The text before and after each regular expression.
    pub identifier: String,
    /// The values that are written in place of the regular expressions.
    pub replacements: Option<Vec<String>>,
}

impl Clone for RegexConfig {
    fn clone(&self) -> (copy: RegexConfig)
        ensures
            copy@ == self@,
    {
        RegexConfig {
            identifier: self.identifier.clone(),
            replacements: match &self.replacements {
                Some(values) => Some(copy_list(values)),
                None => None,
            },
        }
    }
}

/// The texts of the markers.
pub struct RegexView {
    pub identifier: Seq<char>,
    pub replacements: Option<Seq<Seq<char>>>,
}

impl View for RegexConfig {
    type V = RegexView;

    open spec fn view(&self) -> RegexView {
        RegexView {
            identifier: self.identifier@,
            replacements: match self.replacements {
                Some(values) => Some(texts(values@)),
                None => None,
            },
        }
    }
}

/// The texts of optional markers.
pub open spec fn regex_view(regex: Option<&RegexConfig>) -> Option<RegexView> {
    match regex {
        Some(config) => Some(config@),
        None => None,
    }
}

// ---- Loading ----

/// The configuration as it is written.
#[derive(Debug)]
pub struct InputConfig {
    pub license: Option<String>,
    pub ignore_default_ignores: Option<bool>,
    pub ignore: Option<Vec<String>>,
    pub ignore_file: Option<String>,
    pub trailing_whitespace: Option<String>,
    pub output: Option<String>,
    pub regex_identifier: Option<String>,
    pub default_format: Option<Format>,
    /// The declared formats, in the order in which they are to be taken.
    pub license_formats: Option<Vec<(String, Format)>>,
}

/// The texts of the configuration as it is written.
pub struct InputView {
    pub license: Option<Seq<char>>,
    pub ignore_default_ignores: Option<bool>,
    pub ignore: Option<Seq<Seq<char>>>,
    pub ignore_file: Option<Seq<char>>,
    pub trailing_whitespace: Option<Seq<char>>,
    pub output: Option<Seq<char>>,
    pub regex_identifier: Option<Seq<char>>,
    pub default_format: Option<FormatView>,
    pub license_formats: Option<Seq<(Seq<char>, FormatView)>>,
}

/// The texts of a list of declarations.
pub open spec fn declared_view(declared: Seq<(String, Format)>) -> Seq<(Seq<char>, FormatView)> {
    declared.map_values(|entry: (String, Format)| (entry.0@, entry.1@))
}

/// The texts of an optional list.
pub open spec fn opt_texts(list: Option<Vec<String>>) -> Option<Seq<Seq<char>>> {
    match list {
        Some(items) => Some(texts(items@)),
        None => None,
    }
}

impl View for InputConfig {
    type V = InputView;

    open spec fn view(&self) -> InputView {
        InputView {
            license: opt_text(self.license),
            ignore_default_ignores: self.ignore_default_ignores,
            ignore: opt_texts(self.ignore),
            ignore_file: opt_text(self.ignore_file),
            trailing_whitespace: opt_text(self.trailing_whitespace),
            output: opt_text(self.output),
            regex_identifier: opt_text(self.regex_identifier),
            default_format: match self.default_format {
                Some(format) => Some(format@),
                None => None,
            },
            license_formats: match self.license_formats {
                Some(declared) => Some(declared_view(declared@)),
                None => None,
            },
        }
    }
}

/// The configuration of a run. The license is empty until it was read.
#[derive(Debug)]
pub struct Config {
    pub default_format: Format,
    pub ignore_default_ignores: bool,
    pub ignore: Vec<String>,
    pub ignore_file: Option<String>,
    pub license: String,
    pub license_formats: Vec<(String, Format)>,
    pub output: Option<Location>,
    pub regex: Option<RegexConfig>,
    pub trim_trailing_whitespace: bool,
}

/// The texts of the configuration of a run.
pub struct ConfigView {
    pub default_format: FormatView,
    pub ignore_default_ignores: bool,
    pub ignore: Seq<Seq<char>>,
    pub ignore_file: Option<Seq<char>>,
    pub license: Seq<char>,
    pub license_formats: Seq<(Seq<char>, FormatView)>,
    pub output: Option<Seq<char>>,
    pub regex: Option<RegexView>,
    pub trim_trailing_whitespace: bool,
}

impl View for Config {
    type V = ConfigView;

    open spec fn view(&self) -> ConfigView {
        ConfigView {
            default_format: self.default_format@,
            ignore_default_ignores: self.ignore_default_ignores,
            ignore: texts(self.ignore@),
            ignore_file: opt_text(self.ignore_file),
            license: self.license@,
            license_formats: declared_view(self.license_formats@),
            output: match self.output {
                Some(location) => Some(location.path()),
                None => None,
            },
            regex: match self.regex {
                Some(regex) => Some(regex@),
                None => None,
            },
            trim_trailing_whitespace: self.trim_trailing_whitespace,
        }
    }
}

impl Config {
    /// Whether the file for the report lies where its path can lie.
    pub open spec fn fits(self) -> bool {
        match self.output {
            Some(location) => location.fits(),
            None => true,
        }
    }
}

/// Whether a text is the word `TRIM`, in whatever case.
pub open spec fn is_trim(value: Seq<char>) -> bool {
    &&& value.len() == 4
    &&& value[0] == 'T' || value[0] == 't'
    &&& value[1] == 'R' || value[1] == 'r'
    &&& value[2] == 'I' || value[2] == 'i'
    &&& value[3] == 'M' || value[3] == 'm'
}

/// Decides whether a text is the word `TRIM`, in whatever case.
fn says_trim(value: &str) -> (says: bool)
    ensures
        says == is_trim(value@),
{
    let chars = to_chars(value);
    chars.len() == 4 && (chars[0] == 'T' || chars[0] == 't') && (chars[1] == 'R' || chars[1] == 'r')
        && (chars[2] == 'I' || chars[2] == 'i') && (chars[3] == 'M' || chars[3] == 'm')
}

/// The markers that a configuration declares, with the values for a run.
pub open spec fn declared_regex(
    input: InputView,
    replacements: Option<Seq<Seq<char>>>,
) -> Option<RegexView> {
    match input.regex_identifier {
        Some(identifier) => Some(RegexView { identifier, replacements }),
        None => None,
    }
}

/// What is wrong with a configuration: no license is named, or the license is
/// to be added, has markers, and no values are given for them.
pub open spec fn config_fault(
    input: InputView,
    mode: Mode,
    replacements: Option<Seq<Seq<char>>>,
) -> Option<Fault> {
    if input.license is None {
        Some(Fault::Message("Missing required field in config: license"@))
    } else if mode == Mode::Add && input.regex_identifier is Some && replacements is None {
        Some(
            Fault::Message(
                "Must supply regexReplacements option when using regexIdentifier in config when in INSERT mode"@,
            ),
        )
    } else {
        None
    }
}

/// The value, or another where there is none.
pub open spec fn value_or<T>(value: Option<T>, other: T) -> T {
    match value {
        Some(value) => value,
        None => other,
    }
}

/// The configuration of a run, before the license was read.
pub open spec fn loaded(input: InputView, replacements: Option<Seq<Seq<char>>>) -> ConfigView {
    ConfigView {
        default_format: value_or(input.default_format, default_format_view()),
        ignore_default_ignores: value_or(input.ignore_default_ignores, false),
        ignore: value_or(input.ignore, Seq::empty()),
        ignore_file: input.ignore_file,
        license: Seq::empty(),
        license_formats: value_or(input.license_formats, Seq::empty()),
        output: input.output,
        regex: declared_regex(input, replacements),
        trim_trailing_whitespace: match input.trailing_whitespace {
            Some(value) => is_trim(value),
            None => false,
        },
    }
}

/// The format for kinds of file of which nothing is said.
pub open spec fn default_format_view() -> FormatView {
    FormatView { append: Some("*/"@), prepend: Some("/*"@), each_line: None, file: None }
}

/// Makes the format for kinds of file of which nothing is said.
pub fn default_format() -> (format: Format)
    ensures
        format@ == default_format_view(),
{
    Format {
        append: Some("*/".to_owned()),
        prepend: Some("/*".to_owned()),
        each_line: None,
        file: None,
    }
}

/// Makes the configuration of a run, and says where the license lies that is
/// to be read into it.
pub fn load_config(
    input: InputConfig,
    mode: Mode,
    replacements: Option<Vec<String>>,
) -> (result: Result<(Config, Location), AppError>)
    ensures
        match config_fault(input@, mode, opt_texts(replacements)) {
            Some(fault) => result matches Err(error) && error@ == fault,
            None => result matches Ok((config, location)) && config@ == loaded(
                input@,
                opt_texts(replacements),
            ) && config.fits() && Some(location.path()) == input@.license && location.fits(),
        },
{
    let license = match input.license {
        Some(path) => resolve_path(path.as_str()),
        None => return Err(
            AppError::Message("Missing required field in config: license".to_owned()),
        ),
    };
    if mode == Mode::Add && input.regex_identifier.is_some() && replacements.is_none() {
        return Err(
            AppError::Message(
                "Must supply regexReplacements option when using regexIdentifier in config when in INSERT mode".to_owned(),
            ),
        );
    }
    let regex = match input.regex_identifier {
        Some(identifier) => Some(RegexConfig { identifier, replacements }),
        None => None,
    };
    let trim_trailing_whitespace = match &input.trailing_whitespace {
        Some(value) => says_trim(value.as_str()),
        None => false,
    };
    let output = match &input.output {
        Some(path) => Some(resolve_path(path.as_str())),
        None => None,
    };
    let ignore: Vec<String> = match input.ignore {
        Some(patterns) => patterns,
        None => Vec::new(),
    };
    let license_formats: Vec<(String, Format)> = match input.license_formats {
        Some(declared) => declared,
        None => Vec::new(),
    };
    let config = Config {
        default_format: match input.default_format {
            Some(format) => format,
            None => default_format(),
        },
        ignore_default_ignores: match input.ignore_default_ignores {
            Some(value) => value,
            None => false,
        },
        ignore,
        ignore_file: input.ignore_file,
        license: String::new(),
        license_formats,
        output,
        regex,
        trim_trailing_whitespace,
    };
    assert(config@.ignore =~= loaded(input@, opt_texts(replacements)).ignore);
    assert(config@.license_formats =~= loaded(input@, opt_texts(replacements)).license_formats);
    Ok((config, license))
}

// ---- Laws ----

/// Whether a text is a word, but for the case of its letters.
pub open spec fn is_word(text: Seq<char>, upper: Seq<char>, lower: Seq<char>) -> bool {
    &&& text.len() == upper.len()
    &&& forall|i: int|
        0 <= i < text.len() ==> #[trigger] text[i] == upper[i] || text[i] == lower[i]
}

/// What is written in a configuration is what a run goes by, whatever else is
/// written there or left out.
pub proof fn what_is_written_counts(
    input: InputView,
    replacements: Option<Seq<Seq<char>>>,
)
    ensures
        ({
            let config = loaded(input, replacements);
            &&& input.default_format matches Some(format) ==> config.default_format == format
            &&& input.ignore_default_ignores matches Some(off) ==> config.ignore_default_ignores
                == off
            &&& input.ignore matches Some(list) ==> config.ignore == list
            &&& input.license_formats matches Some(declared) ==> config.license_formats == declared
            &&& input.regex_identifier matches Some(identifier) ==> config.regex == Some(
                RegexView { identifier, replacements },
            )
            &&& input.trailing_whitespace matches Some(word) ==> config.trim_trailing_whitespace
                == is_word(word, seq!['T', 'R', 'I', 'M'], seq!['t', 'r', 'i', 'm'])
            &&& config.ignore_file == input.ignore_file
            &&& config.output == input.output
        }),
{
    if let Some(word) = input.trailing_whitespace {
        let upper = seq!['T', 'R', 'I', 'M'];
        let lower = seq!['t', 'r', 'i', 'm'];
        if is_word(word, upper, lower) {
            assert(word[0] == upper[0] || word[0] == lower[0]);
            assert(word[1] == upper[1] || word[1] == lower[1]);
            assert(word[2] == upper[2] || word[2] == lower[2]);
            assert(word[3] == upper[3] || word[3] == lower[3]);
        }
    }
}

/// What is left out of a configuration: the default format is a block comment,
/// nothing is ignored but by default, nothing is declared, there are no markers,
/// and trailing white space is not trimmed.
pub proof fn what_is_left_out_has_a_default(
    input: InputView,
    replacements: Option<Seq<Seq<char>>>,
)
    ensures
        ({
            let config = loaded(input, replacements);
            &&& input.default_format is None ==> config.default_format == (FormatView {
                append: Some("*/"@),
                prepend: Some("/*"@),
                each_line: None,
                file: None,
            })
            &&& input.ignore_default_ignores is None ==> !config.ignore_default_ignores
            &&& input.ignore is None ==> config.ignore.len() == 0
            &&& input.license_formats is None ==> config.license_formats.len() == 0
            &&& input.regex_identifier is None ==> config.regex is None
            &&& input.trailing_whitespace is None ==> !config.trim_trailing_whitespace
        }),
{
}

/// A configuration is refused if and only if it names no license, or the
/// license is to be added, markers are in use and no values are given.
pub proof fn when_a_configuration_is_refused(
    input: InputView,
    mode: Mode,
    replacements: Option<Seq<Seq<char>>>,
)
    ensures
        input.license is None ==> config_fault(input, mode, replacements) == Some(
            Fault::Message("Missing required field in config: license"@),
        ),
        input.license is Some && mode == Mode::Add && input.regex_identifier is Some
            && replacements is None ==> config_fault(input, mode, replacements) == Some(
            Fault::Message(
                "Must supply regexReplacements option when using regexIdentifier in config when in INSERT mode"@,
            ),
        ),
        input.license is Some && !(mode == Mode::Add && input.regex_identifier is Some
            && replacements is None) ==> config_fault(input, mode, replacements) is None,
{
}

} // verus!
