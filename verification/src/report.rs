//! What a run reports.
use vstd::prelude::*;

use crate::config::Mode;
use crate::error::{AppError, Fault};
use crate::text::{decimal, decimal_string, join, joined, texts, Eol};

verus! {

/// The files that a run changed, or found to lack the license.
#[derive(Debug)]
pub struct Report {
    pub inserted: Vec<String>,
    pub missing: Vec<String>,
    pub removed: Vec<String>,
}

/// The texts of a report.
pub struct ReportView {
    pub inserted: Seq<Seq<char>>,
    pub missing: Seq<Seq<char>>,
    pub removed: Seq<Seq<char>>,
}

impl View for Report {
    type V = ReportView;

    open spec fn view(&self) -> ReportView {
        ReportView {
            inserted: texts(self.inserted@),
            missing: texts(self.missing@),
            removed: texts(self.removed@),
        }
    }
}

/// The report of a run that did nothing yet.
pub open spec fn empty_report() -> ReportView {
    ReportView { inserted: Seq::empty(), missing: Seq::empty(), removed: Seq::empty() }
}

impl Default for Report {
    fn default() -> (report: Report)
        ensures
            report@ == empty_report(),
    {
        let report = Report { inserted: Vec::new(), missing: Vec::new(), removed: Vec::new() };
        assert(report@.inserted =~= Seq::<Seq<char>>::empty());
        assert(report@.missing =~= Seq::<Seq<char>>::empty());
        assert(report@.removed =~= Seq::<Seq<char>>::empty());
        report
    }
}

impl ReportView {
    /// The list that a mode is about.
    pub open spec fn selected(self, mode: Mode) -> Seq<Seq<char>> {
        match mode {
            Mode::Add => self.inserted,
            Mode::Check => self.missing,
            Mode::Remove => self.removed,
        }
    }

    /// The report with one more file in the list that a mode is about.
    pub open spec fn with(self, mode: Mode, path: Seq<char>) -> ReportView {
        match mode {
            Mode::Add => ReportView { inserted: self.inserted.push(path), ..self },
            Mode::Check => ReportView { missing: self.missing.push(path), ..self },
            Mode::Remove => ReportView { removed: self.removed.push(path), ..self },
        }
    }
}

/// Adding a string to a list adds its text.
proof fn texts_push(list: Seq<String>, item: String)
    ensures
        texts(list.push(item)) == texts(list).push(item@),
{
    assert(texts(list.push(item)) =~= texts(list).push(item@));
}

impl Report {
    /// Adds a file to the list that a mode is about.
    pub fn note(&mut self, mode: Mode, path: String)
        ensures
            final(self)@ == old(self)@.with(mode, path@),
    {
        match mode {
            Mode::Add => {
                proof {
                    texts_push(self.inserted@, path);
                }
                self.inserted.push(path);
            },
            Mode::Check => {
                proof {
                    texts_push(self.missing@, path);
                }
                self.missing.push(path);
            },
            Mode::Remove => {
                proof {
                    texts_push(self.removed@, path);
                }
                self.removed.push(path);
            },
        }
    }

    /// The text of the file for the report: the list that a mode is about,
    /// one path to a line.
    pub fn listing(&self, mode: Mode, eol: Eol) -> (text: String)
        ensures
            text@ == joined(self@.selected(mode), eol.chars()),
    {
        match mode {
            Mode::Add => join(&self.inserted, eol.as_str()),
            Mode::Check => join(&self.missing, eol.as_str()),
            Mode::Remove => join(&self.removed, eol.as_str()),
        }
    }

    /// Ends a run: a check that found files without the license fails.
    pub fn close(self, mode: Mode) -> (result: Result<Report, AppError>)
        ensures
            match closed(self@, mode) {
                Ok(report) => result matches Ok(given) && given == self && given@ == report,
                Err(fault) => result matches Err(error) && error@ == fault,
            },
    {
        if mode == Mode::Check && self.missing.len() > 0 {
            let count = self.missing.len();
            return Err(AppError::CheckFailed { count, missing: self.missing });
        }
        Ok(self)
    }
}

/// How a run ends.
pub open spec fn closed(report: ReportView, mode: Mode) -> Result<ReportView, Fault> {
    if mode == Mode::Check && report.missing.len() > 0 {
        Err(Fault::CheckFailed(report.missing.len(), report.missing))
    } else {
        Ok(report)
    }
}

// ---- Lines for the user ----

/// The line that tells of a run that succeeded.
pub open spec fn success_text(report: ReportView, mode: Mode) -> Seq<char> {
    match mode {
        Mode::Add => "\x1b[33m!\x1b[0m Inserted license into "@ + decimal(report.inserted.len())
            + " file(s)"@,
        Mode::Check => "\x1b[32m\u{2714}\x1b[0m All files have licenses."@,
        Mode::Remove => "\x1b[32m\u{2714}\x1b[0m Removed license from "@ + decimal(
            report.removed.len(),
        ) + " file(s)."@,
    }
}

/// Writes the line that tells of a run that succeeded.
pub fn report_line(report: &Report, mode: Mode) -> (line: String)
    ensures
        line@ == success_text(report@, mode),
{
    match mode {
        Mode::Add => "\x1b[33m!\x1b[0m Inserted license into ".to_owned().concat(
            decimal_string(report.inserted.len() as u128).as_str(),
        ).concat(" file(s)"),
        Mode::Check => "\x1b[32m\u{2714}\x1b[0m All files have licenses.".to_owned(),
        Mode::Remove => "\x1b[32m\u{2714}\x1b[0m Removed license from ".to_owned().concat(
            decimal_string(report.removed.len() as u128).as_str(),
        ).concat(" file(s)."),
    }
}

/// The line that tells of one file without the license.
pub open spec fn missing_text(path: Seq<char>) -> Seq<char> {
    "\x1b[31m\u{2717}\x1b[0m License not found in "@ + path
}

/// The lines that tell of the files without the license.
pub open spec fn missing_texts(fault: Fault) -> Seq<Seq<char>> {
    match fault {
        Fault::CheckFailed(_, missing) => missing.map_values(
            |path: Seq<char>| missing_text(path),
        ),
        _ => Seq::empty(),
    }
}

/// Writes the lines that tell of the files without the license.
pub fn missing_lines(error: &AppError) -> (list: Vec<String>)
    ensures
        texts(list@) == missing_texts(error@),
{
    let mut list: Vec<String> = Vec::new();
    if let AppError::CheckFailed { missing, .. } = error {
        let ghost all = missing_texts(error@);
        let mut at: usize = 0;
        while at < missing.len()
            invariant
                at <= missing@.len(),
                all == texts(missing@).map_values(|path: Seq<char>| missing_text(path)),
                texts(list@) == all.take(at as int),
            decreases missing@.len() - at,
        {
            let ghost before = texts(list@);
            let line = "\x1b[31m\u{2717}\x1b[0m License not found in ".to_owned().concat(
                missing[at].as_str(),
            );
            assert(line@ == all[at as int]);
            proof {
                texts_push(list@, line);
            }
            list.push(line);
            at = at + 1;
            assert(all.take(at as int) == before.push(all[at - 1]));
        }
        assert(all.take(at as int) == all);
    } else {
        assert(texts(list@) =~= Seq::<Seq<char>>::empty());
    }
    list
}

// ---- Laws ----

/// A file joins the end of the list of its mode, and no other list changes.
pub proof fn a_file_joins_one_list(report: ReportView, mode: Mode, other: Mode, path: Seq<char>)
    ensures
        report.with(mode, path).selected(mode) == report.selected(mode).push(path),
        other != mode ==> report.with(mode, path).selected(other) == report.selected(other),
{
}

/// The lists of a report are those of the files that were changed by adding,
/// that miss the license, and that were changed by removing.
pub proof fn the_lists_of_a_report(report: ReportView)
    ensures
        report.selected(Mode::Add) == report.inserted,
        report.selected(Mode::Check) == report.missing,
        report.selected(Mode::Remove) == report.removed,
{
}

/// A run fails at its end if and only if it checks and a file misses the
/// license; the error counts and lists exactly the files that do. Any other run
/// ends with its report as it is.
pub proof fn how_a_report_is_closed(report: ReportView, mode: Mode)
    ensures
        mode == Mode::Check && report.missing.len() > 0 ==> closed(report, mode) == Err::<
            ReportView,
            Fault,
        >(Fault::CheckFailed(report.missing.len(), report.missing)),
        !(mode == Mode::Check && report.missing.len() > 0) ==> closed(report, mode) == Ok::<
            ReportView,
            Fault,
        >(report),
{
}

/// What the user is told of a run: how many files it changed, or that all have
/// the license.
pub proof fn what_a_success_says(report: ReportView)
    ensures
        success_text(report, Mode::Add) == "\x1b[33m!\x1b[0m Inserted license into "@ + decimal(
            report.inserted.len(),
        ) + " file(s)"@,
        success_text(report, Mode::Check)
            == "\x1b[32m\u{2714}\x1b[0m All files have licenses."@,
        success_text(report, Mode::Remove)
            == "\x1b[32m\u{2714}\x1b[0m Removed license from "@ + decimal(report.removed.len())
            + " file(s)."@,
{
}

/// A failed check tells of each file without the license on a line of its own,
/// in their order; no other failure has such lines.
pub proof fn what_a_failure_lists(fault: Fault)
    ensures
        match fault {
            Fault::CheckFailed(_, missing) => {
                &&& missing_texts(fault).len() == missing.len()
                &&& forall|i: int|
                    0 <= i < missing.len() ==> #[trigger] missing_texts(fault)[i]
                        == "\x1b[31m\u{2717}\x1b[0m License not found in "@ + missing[i]
            },
            _ => missing_texts(fault).len() == 0,
        },
{
}

} // verus!
