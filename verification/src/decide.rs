//! What is done with one file.
use vstd::prelude::*;

use crate::config::{regex_view, Config, ConfigView, Mode, RegexConfig, RegexView};
use crate::error::{AppError, Fault};
use crate::license::{
    apply_replacements, build_match_pattern, checked, insert_license, inserted, license_pattern,
    license_start, normalize_for_check, remove_license, remove_matching_license, removed, replaced,
};
use crate::matcher::{regex_says, regex_search};
use crate::text::Eol;

verus! {

/// What is done with a file.
#[derive(Debug)]
pub enum Verdict {
    /// The file gets this text, and is reported as changed.
    Write(String),
    /// The file is reported to lack the license.
    Missing,
    /// Nothing.
    Nothing,
}

/// What is done with a file, as texts.
pub enum VerdictView {
    Write(Seq<char>),
    Missing,
    Nothing,
}

impl View for Verdict {
    type V = VerdictView;

    open spec fn view(&self) -> VerdictView {
        match self {
            Verdict::Write(text) => VerdictView::Write(text@),
            Verdict::Missing => VerdictView::Missing,
            Verdict::Nothing => VerdictView::Nothing,
        }
    }
}

/// What a contract says of a verdict that may have failed.
pub open spec fn verdict_outcome(result: Result<Verdict, AppError>) -> Result<VerdictView, Fault> {
    match result {
        Ok(verdict) => Ok(verdict@),
        Err(error) => Err(error@),
    }
}

/// What is done with a file once it is known whether the pattern of the
/// license was found in it; no answer is a pattern that does not compile.
pub open spec fn decided(
    mode: Mode,
    eol: Eol,
    regex: Option<RegexView>,
    contents: Seq<char>,
    license: Seq<char>,
    pattern: Seq<char>,
    found: Option<bool>,
) -> Result<VerdictView, Fault> {
    match (found, mode) {
        (None, _) => Err(Fault::Regex(pattern)),
        (Some(false), Mode::Add) => match replaced(license, regex, eol) {
            Ok(text) => Ok(VerdictView::Write(inserted(contents, text, eol))),
            Err(fault) => Err(fault),
        },
        (Some(false), Mode::Check) => Ok(VerdictView::Missing),
        (Some(false), Mode::Remove) => Ok(VerdictView::Nothing),
        (Some(true), Mode::Remove) => if license_start(contents, pattern) is Some {
            Ok(VerdictView::Write(removed(contents, pattern, eol)))
        } else {
            Ok(VerdictView::Nothing)
        },
        (Some(true), _) => Ok(VerdictView::Nothing),
    }
}

/// What is done with a file that the given license belongs in.
pub open spec fn judged(
    config: ConfigView,
    mode: Mode,
    eol: Eol,
    contents: Seq<char>,
    license: Seq<char>,
) -> Result<VerdictView, Fault> {
    let trim = config.trim_trailing_whitespace;
    match license_pattern(license, trim, config.regex) {
        Err(fault) => Err(fault),
        Ok(pattern) => match checked(contents, trim, config.regex) {
            Err(fault) => Err(fault),
            Ok(normal) => decided(
                mode,
                eol,
                config.regex,
                contents,
                license,
                pattern,
                regex_says(pattern, normal),
            ),
        },
    }
}

/// Decides what is done with a file, from what the search for the pattern of
/// the license in it gave.
pub fn decide_file(
    mode: Mode,
    eol: Eol,
    regex: Option<&RegexConfig>,
    contents: &str,
    license: &str,
    pattern: &str,
    found: Result<bool, regex::Error>,
) -> (result: Result<Verdict, AppError>)
    ensures
        verdict_outcome(result) == decided(
            mode,
            eol,
            regex_view(regex),
            contents@,
            license@,
            pattern@,
            match found {
                Ok(found) => Some(found),
                Err(_) => None,
            },
        ),
        found matches Err(error) ==> result matches Err(AppError::Regex { source, .. }) && source
            == error,
{
    let has_license = match found {
        Ok(found) => found,
        Err(source) => return Err(AppError::Regex { pattern: pattern.to_owned(), source }),
    };
    if !has_license {
        match mode {
            Mode::Add => match apply_replacements(license, regex, eol) {
                Ok(text) => Ok(Verdict::Write(insert_license(contents, text.as_str(), eol))),
                Err(error) => Err(error),
            },
            Mode::Check => Ok(Verdict::Missing),
            Mode::Remove => Ok(Verdict::Nothing),
        }
    } else if mode == Mode::Remove {
        match remove_license(contents, pattern) {
            Ok(true) => match remove_matching_license(contents, pattern, eol) {
                Ok(text) => Ok(Verdict::Write(text)),
                Err(error) => Err(error),
            },
            Ok(false) => Ok(Verdict::Nothing),
            Err(error) => Err(error),
        }
    } else {
        Ok(Verdict::Nothing)
    }
}

/// Decides what is done with a file that the given license belongs in.
pub fn judge_file(config: &Config, mode: Mode, eol: Eol, contents: &str, license: &str) -> (result:
    Result<Verdict, AppError>)
    ensures
        verdict_outcome(result) == judged(config@, mode, eol, contents@, license@),
{
    let regex = match &config.regex {
        Some(regex) => Some(regex),
        None => None,
    };
    assert(regex_view(regex) == config@.regex);
    let trim = config.trim_trailing_whitespace;
    let pattern = match build_match_pattern(license, trim, regex) {
        Ok(pattern) => pattern,
        Err(error) => return Err(error),
    };
    let normal = match normalize_for_check(contents, trim, regex) {
        Ok(normal) => normal,
        Err(error) => return Err(error),
    };
    let found = regex_search(pattern.as_str(), normal.as_str());
    decide_file(mode, eol, regex, contents, license, pattern.as_str(), found)
}

} // verus!
