//! A run, as the requests it makes and what it does with the answers.
//!
//! A run reads and writes nothing itself. It says what is to be done next,
//! and goes on when it is told what came of it.
use vstd::hash_map::StringHashMap;
use vstd::prelude::*;

use crate::config::{
    config_fault, load_config, loaded, opt_texts, Config, ConfigView, InputConfig, InputView, Mode,
};
use crate::decide::{judge_file, judged, Verdict, VerdictView};
use crate::error::{AppError, Fault};
use crate::format::{formatted, Formatted, FormattedView, Formatter};
use crate::ignore::{
    all_rules, keep_entry, kept, load_rules, rules_view, IgnoreRule, RuleView,
};
use crate::paths::{
    file_key, format_key, normalize_relative_path, relative_path, resolve_path, FilePath,
    FilePathView, Location,
};
use crate::platform::{Platform, Separators};
use crate::report::{closed, empty_report, Report, ReportView};
use crate::text::{joined, opt_str, opt_text, Eol};

verus! {

// ---- What a run asks for and is told ----

/// What is to be done next.
#[derive(Debug)]
pub enum Request {
    /// Read the configuration.
    ReadConfig(Location),
    /// Read the license.
    ReadLicense(Location),
    /// Read the ignore file.
    ReadIgnoreFile(Location),
    /// Find the next entry of the tree below the root.
    NextEntry,
    /// Read a file that was found.
    ReadFile(FilePath),
    /// Read a file that holds the license as it is to be written.
    ReadFormat(Location),
    /// Give a file that was found a new text.
    WriteFile(FilePath, String),
    /// Write the report.
    WriteOutput(Location, String),
    /// Nothing: the run is over.
    Finish,
}

/// What is to be done next, as texts.
pub enum RequestView {
    ReadConfig(Seq<char>),
    ReadLicense(Seq<char>),
    ReadIgnoreFile(Seq<char>),
    NextEntry,
    ReadFile(FilePathView),
    ReadFormat(Seq<char>),
    WriteFile(FilePathView, Seq<char>),
    WriteOutput(Seq<char>, Seq<char>),
    Finish,
}

impl View for Request {
    type V = RequestView;

    open spec fn view(&self) -> RequestView {
        match self {
            Request::ReadConfig(location) => RequestView::ReadConfig(location.path()),
            Request::ReadLicense(location) => RequestView::ReadLicense(location.path()),
            Request::ReadIgnoreFile(location) => RequestView::ReadIgnoreFile(location.path()),
            Request::NextEntry => RequestView::NextEntry,
            Request::ReadFile(path) => RequestView::ReadFile(path@),
            Request::ReadFormat(location) => RequestView::ReadFormat(location.path()),
            Request::WriteFile(path, text) => RequestView::WriteFile(path@, text@),
            Request::WriteOutput(location, text) => RequestView::WriteOutput(
                location.path(),
                text@,
            ),
            Request::Finish => RequestView::Finish,
        }
    }
}

impl Request {
    /// Whether a named file lies where its path can lie.
    pub open spec fn fits(self) -> bool {
        match self {
            Request::ReadConfig(location) => location.fits(),
            Request::ReadLicense(location) => location.fits(),
            Request::ReadIgnoreFile(location) => location.fits(),
            Request::ReadFormat(location) => location.fits(),
            Request::WriteOutput(location, _) => location.fits(),
            _ => true,
        }
    }
}

/// What came of a request.
#[derive(Debug)]
pub enum Event {
    /// The configuration was read.
    Config(InputConfig),
    /// A file was read.
    Text(String),
    /// The ignore file was read, and lies at this path.
    IgnoreFile(String, FilePath),
    /// An entry was found; the flag says whether it is a file.
    Entry(FilePath, bool),
    /// There are no more entries.
    WalkEnded,
    /// A file was written.
    Written,
    /// The request failed.
    Failed(AppError),
}

/// What came of a request, as texts.
pub enum EventView {
    Config(InputView),
    Text(Seq<char>),
    IgnoreFile(Seq<char>, FilePathView),
    Entry(FilePathView, bool),
    WalkEnded,
    Written,
    Failed(Fault),
}

impl View for Event {
    type V = EventView;

    open spec fn view(&self) -> EventView {
        match self {
            Event::Config(input) => EventView::Config(input@),
            Event::Text(text) => EventView::Text(text@),
            Event::IgnoreFile(text, path) => EventView::IgnoreFile(text@, path@),
            Event::Entry(path, is_file) => EventView::Entry(path@, *is_file),
            Event::WalkEnded => EventView::WalkEnded,
            Event::Written => EventView::Written,
            Event::Failed(error) => EventView::Failed(error@),
        }
    }
}

/// Whether an event answers a request. Nothing answers a run that is over.
pub open spec fn answers(request: RequestView, event: EventView) -> bool {
    match (request, event) {
        (RequestView::Finish, _) => false,
        (_, EventView::Failed(_)) => true,
        (RequestView::ReadConfig(_), EventView::Config(_)) => true,
        (RequestView::ReadLicense(_), EventView::Text(_)) => true,
        (RequestView::ReadIgnoreFile(_), EventView::IgnoreFile(..)) => true,
        (RequestView::NextEntry, EventView::Entry(..)) => true,
        (RequestView::NextEntry, EventView::WalkEnded) => true,
        (RequestView::ReadFile(_), EventView::Text(_)) => true,
        (RequestView::ReadFormat(_), EventView::Text(_)) => true,
        (RequestView::WriteFile(..), EventView::Written) => true,
        (RequestView::WriteOutput(..), EventView::Written) => true,
        _ => false,
    }
}

// ---- Where a run stands ----

/// The work on the files that were found.
pub struct Work {
    pub config: Config,
    pub formatter: Formatter,
    /// The license as it is written, by kind of file.
    pub cache: StringHashMap<String>,
    pub report: Report,
    pub files: Vec<FilePath>,
    /// The file that is worked on.
    pub next: usize,
}

/// The work on the files that were found, as texts.
pub struct WorkView {
    pub config: ConfigView,
    pub cache: Map<Seq<char>, Seq<char>>,
    pub report: ReportView,
    pub files: Seq<FilePathView>,
    pub next: nat,
}

/// The texts of a list of paths.
pub open spec fn paths_view(files: Seq<FilePath>) -> Seq<FilePathView> {
    files.map_values(|path: FilePath| path@)
}

/// The texts of a cache.
pub open spec fn cache_view(cache: Map<Seq<char>, String>) -> Map<Seq<char>, Seq<char>> {
    cache.map_values(|text: String| text@)
}

impl View for Work {
    type V = WorkView;

    open spec fn view(&self) -> WorkView {
        WorkView {
            config: self.config@,
            cache: cache_view(self.cache@),
            report: self.report@,
            files: paths_view(self.files@),
            next: self.next as nat,
        }
    }
}

impl Work {
    /// Whether the formatter is that of the configuration and a file is left
    /// to work on where one is said to be.
    pub open spec fn well_formed(self, busy: bool) -> bool {
        &&& self.formatter.is_for(self.config@)
        &&& self.config.fits()
        &&& self.next <= self.files@.len()
        &&& busy ==> self.next < self.files@.len()
    }
}

/// Where a run stands.
pub enum Stage {
    /// The configuration is to be read.
    Start { location: Location, replacements: Option<Vec<String>> },
    /// The license is to be read.
    License { config: Config, location: Location },
    /// The ignore file is to be read.
    IgnoreFile { config: Config, location: Location },
    /// The tree is walked.
    Walk {
        config: Config,
        rules: Vec<IgnoreRule>,
        ignore_file: Option<String>,
        files: Vec<FilePath>,
    },
    /// A file is to be read.
    File(Work),
    /// The license for a file is to be read.
    Format { work: Work, contents: String, key: String, location: Location },
    /// A file is to be written.
    Write { work: Work, text: String },
    /// The report is to be written.
    Output { location: Location, text: String, report: Report },
    /// The run is over.
    Done(Result<Report, AppError>),
}

/// Where a run stands, as texts.
pub enum StageView {
    Start { path: Seq<char>, replacements: Option<Seq<Seq<char>>> },
    License { config: ConfigView, path: Seq<char> },
    IgnoreFile { config: ConfigView, path: Seq<char> },
    Walk {
        config: ConfigView,
        rules: Seq<RuleView>,
        ignore_file: Option<Seq<char>>,
        files: Seq<FilePathView>,
    },
    File(WorkView),
    Format { work: WorkView, contents: Seq<char>, key: Seq<char>, path: Seq<char> },
    Write { work: WorkView, text: Seq<char> },
    Output { path: Seq<char>, text: Seq<char>, report: ReportView },
    Done(Result<ReportView, Fault>),
}

impl View for Stage {
    type V = StageView;

    open spec fn view(&self) -> StageView {
        match self {
            Stage::Start { location, replacements } => StageView::Start {
                path: location.path(),
                replacements: opt_texts(*replacements),
            },
            Stage::License { config, location } => StageView::License {
                config: config@,
                path: location.path(),
            },
            Stage::IgnoreFile { config, location } => StageView::IgnoreFile {
                config: config@,
                path: location.path(),
            },
            Stage::Walk { config, rules, ignore_file, files } => StageView::Walk {
                config: config@,
                rules: rules_view(rules@),
                ignore_file: opt_text(*ignore_file),
                files: paths_view(files@),
            },
            Stage::File(work) => StageView::File(work@),
            Stage::Format { work, contents, key, location } => StageView::Format {
                work: work@,
                contents: contents@,
                key: key@,
                path: location.path(),
            },
            Stage::Write { work, text } => StageView::Write { work: work@, text: text@ },
            Stage::Output { location, text, report } => StageView::Output {
                path: location.path(),
                text: text@,
                report: report@,
            },
            Stage::Done(result) => StageView::Done(
                match result {
                    Ok(report) => Ok(report@),
                    Err(error) => Err(error@),
                },
            ),
        }
    }
}

/// A run.
pub struct Run {
    pub mode: Mode,
    pub eol: Eol,
    pub platform: Platform,
    pub stage: Stage,
}

/// A run, as texts.
pub struct RunView {
    pub mode: Mode,
    pub eol: Eol,
    pub separators: Separators,
    pub stage: StageView,
}

impl View for Run {
    type V = RunView;

    open spec fn view(&self) -> RunView {
        RunView {
            mode: self.mode,
            eol: self.eol,
            separators: self.platform@,
            stage: self.stage@,
        }
    }
}

impl Run {
    /// Whether named files lie where their paths can lie, the formatter is
    /// that of the configuration, and there is a file to work on where one is
    /// worked on.
    pub open spec fn well_formed(self) -> bool {
        match self.stage {
            Stage::Start { location, .. } => location.fits(),
            Stage::License { config, location } => config.fits() && location.fits(),
            Stage::IgnoreFile { config, location } => config.fits() && location.fits(),
            Stage::Walk { config, .. } => config.fits(),
            Stage::File(work) => work.well_formed(true),
            Stage::Format { work, location, .. } => work.well_formed(true) && location.fits(),
            Stage::Write { work, .. } => work.well_formed(true),
            Stage::Output { location, .. } => location.fits(),
            Stage::Done(_) => true,
        }
    }
}

impl Run {
    /// Where the report goes, as far as the run knows it.
    pub open spec fn output_place(self) -> Option<Option<Location>> {
        match self.stage {
            Stage::License { config, .. } => Some(config.output),
            Stage::IgnoreFile { config, .. } => Some(config.output),
            Stage::Walk { config, .. } => Some(config.output),
            Stage::File(work) => Some(work.config.output),
            Stage::Format { work, .. } => Some(work.config.output),
            Stage::Write { work, .. } => Some(work.config.output),
            Stage::Output { location, .. } => Some(Some(location)),
            Stage::Start { .. } => None,
            Stage::Done(_) => None,
        }
    }

    /// Whether the report goes to a place, as far as the run knows it.
    pub open spec fn reports_to(self, place: Option<Location>) -> bool {
        self.output_place() matches Some(known) ==> known == place
    }
}

// ---- How a run goes on ----

impl RunView {
    /// What the run asks for.
    pub open spec fn request(self) -> RequestView {
        match self.stage {
            StageView::Start { path, .. } => RequestView::ReadConfig(path),
            StageView::License { path, .. } => RequestView::ReadLicense(path),
            StageView::IgnoreFile { path, .. } => RequestView::ReadIgnoreFile(path),
            StageView::Walk { .. } => RequestView::NextEntry,
            StageView::File(work) => RequestView::ReadFile(work.files[work.next as int]),
            StageView::Format { path, .. } => RequestView::ReadFormat(path),
            StageView::Write { work, text } => RequestView::WriteFile(
                work.files[work.next as int],
                text,
            ),
            StageView::Output { path, text, .. } => RequestView::WriteOutput(path, text),
            StageView::Done(_) => RequestView::Finish,
        }
    }

    /// The run at another stage.
    pub open spec fn at(self, stage: StageView) -> RunView {
        RunView { stage, ..self }
    }

    /// The run at its end.
    pub open spec fn ended(self, result: Result<ReportView, Fault>) -> RunView {
        self.at(StageView::Done(result))
    }

    /// The run when the configuration was read: the license is read next.
    pub open spec fn with_config(
        self,
        input: InputView,
        replacements: Option<Seq<Seq<char>>>,
    ) -> RunView {
        match config_fault(input, self.mode, replacements) {
            Some(fault) => self.ended(Err(fault)),
            None => self.at(
                StageView::License {
                    config: loaded(input, replacements),
                    path: input.license->0,
                },
            ),
        }
    }

    /// The run when the license was read: the ignore file is read next, or
    /// the walk begins where there is none.
    pub open spec fn with_license(self, config: ConfigView, license: Seq<char>) -> RunView {
        let full = ConfigView { license, ..config };
        match full.ignore_file {
            Some(path) => self.at(StageView::IgnoreFile { config: full, path }),
            None => self.walking(full, None, None),
        }
    }

    /// The run at the beginning of the walk.
    pub open spec fn walking(
        self,
        config: ConfigView,
        ignore_text: Option<Seq<char>>,
        ignore_file: Option<Seq<char>>,
    ) -> RunView {
        self.at(
            StageView::Walk {
                config,
                rules: all_rules(config, ignore_text),
                ignore_file,
                files: Seq::empty(),
            },
        )
    }

    /// The run when an entry was found: the entry is kept or passed over.
    pub open spec fn with_entry(
        self,
        config: ConfigView,
        rules: Seq<RuleView>,
        ignore_file: Option<Seq<char>>,
        files: Seq<FilePathView>,
        path: FilePathView,
        is_file: bool,
    ) -> RunView {
        match kept(relative_path(path), is_file, ignore_file, rules, self.separators) {
            Err(fault) => self.ended(Err(fault)),
            Ok(true) => self.at(
                StageView::Walk { config, rules, ignore_file, files: files.push(path) },
            ),
            Ok(false) => self.at(StageView::Walk { config, rules, ignore_file, files }),
        }
    }

    /// The run when it can turn to the next file: the file is read next, or,
    /// where none is left, the report is written, or the run ends.
    pub open spec fn turning(self, work: WorkView) -> RunView {
        if work.next < work.files.len() {
            self.at(StageView::File(work))
        } else {
            match work.config.output {
                Some(path) => self.at(
                    StageView::Output {
                        path,
                        text: joined(work.report.selected(self.mode), self.eol.chars()),
                        report: work.report,
                    },
                ),
                None => self.ended(closed(work.report, self.mode)),
            }
        }
    }

    /// The run when a file was read: the file is judged by the license for
    /// its kind, which is written once for each kind, or read where a file
    /// holds it.
    pub open spec fn with_file(self, work: WorkView, contents: Seq<char>) -> RunView {
        let key = file_key(work.files[work.next as int]);
        if work.cache.contains_key(key) {
            self.judging(work, contents, work.cache[key])
        } else {
            match formatted(work.config, key, work.config.license, self.eol) {
                FormattedView::Text(text) => self.judging(work.caching(key, text), contents, text),
                FormattedView::File(path) => self.at(
                    StageView::Format { work, contents, key, path },
                ),
            }
        }
    }

    /// The run when the license for a file is known: the file is written
    /// next, or the run turns to the next file.
    pub open spec fn judging(self, work: WorkView, contents: Seq<char>, license: Seq<char>) -> RunView {
        match judged(work.config, self.mode, self.eol, contents, license) {
            Err(fault) => self.ended(Err(fault)),
            Ok(VerdictView::Write(text)) => self.at(StageView::Write { work, text }),
            Ok(VerdictView::Missing) => self.turning(work.noting(Mode::Check).turned()),
            Ok(VerdictView::Nothing) => self.turning(work.turned()),
        }
    }

    /// The run when a request was answered.
    pub open spec fn next(self, event: EventView) -> RunView {
        match (self.stage, event) {
            (_, EventView::Failed(fault)) => self.ended(Err(fault)),
            (
                StageView::Start { replacements, .. },
                EventView::Config(input),
            ) => self.with_config(input, replacements),
            (StageView::License { config, .. }, EventView::Text(text)) => self.with_license(
                config,
                text,
            ),
            (
                StageView::IgnoreFile { config, .. },
                EventView::IgnoreFile(text, path),
            ) => self.walking(config, Some(text), Some(relative_path(path))),
            (
                StageView::Walk { config, rules, ignore_file, files },
                EventView::Entry(path, is_file),
            ) => self.with_entry(config, rules, ignore_file, files, path, is_file),
            (StageView::Walk { config, files, .. }, EventView::WalkEnded) => self.turning(
                WorkView {
                    config,
                    cache: Map::empty(),
                    report: empty_report(),
                    files,
                    next: 0,
                },
            ),
            (StageView::File(work), EventView::Text(contents)) => self.with_file(work, contents),
            (
                StageView::Format { work, contents, key, .. },
                EventView::Text(text),
            ) => self.judging(work.caching(key, text), contents, text),
            (StageView::Write { work, .. }, EventView::Written) => self.turning(
                work.noting(self.mode).turned(),
            ),
            (StageView::Output { report, .. }, EventView::Written) => self.ended(
                closed(report, self.mode),
            ),
            _ => self,
        }
    }
}

impl WorkView {
    /// The work with the license for a kind of file remembered.
    pub open spec fn caching(self, key: Seq<char>, text: Seq<char>) -> WorkView {
        WorkView { cache: self.cache.insert(key, text), ..self }
    }

    /// The work with the file that is worked on in the list of a mode.
    pub open spec fn noting(self, mode: Mode) -> WorkView {
        WorkView {
            report: self.report.with(mode, relative_path(self.files[self.next as int])),
            ..self
        }
    }

    /// The work at the next file.
    pub open spec fn turned(self) -> WorkView {
        WorkView { next: self.next + 1, ..self }
    }
}

/// Starts a run. The configuration is read first.
pub fn execute(
    config_path: &str,
    mode: Mode,
    replacements: Option<Vec<String>>,
    eol: Eol,
    platform: Platform,
) -> (run: Run)
    ensures
        run.well_formed(),
        run@ == (RunView {
            mode,
            eol,
            separators: platform@,
            stage: StageView::Start {
                path: config_path@,
                replacements: opt_texts(replacements),
            },
        }),
{
    Run { mode, eol, platform, stage: Stage::Start { location: resolve_path(config_path), replacements } }
}

/// Leaves the file that is worked on.
fn advance(work: Work) -> (after: Work)
    requires
        work.well_formed(true),
    ensures
        after.well_formed(false),
        after@ == work@.turned(),
        after.config == work.config,
{
    let mut work = work;
    let ghost before = work@;
    let count: usize = work.files.len();
    assert(work.next < count);
    work.next = work.next + 1;
    assert(work@ == before.turned());
    work
}

/// Puts the file that is worked on in the list of a mode, and leaves it.
fn note_and_advance(work: Work, mode: Mode) -> (after: Work)
    requires
        work.well_formed(true),
    ensures
        after.well_formed(false),
        after@ == work@.noting(mode).turned(),
        after.config == work.config,
{
    let mut work = work;
    let ghost before = work@;
    let relative = normalize_relative_path(&work.files[work.next]);
    assert(paths_view(work.files@)[work.next as int] == work.files@[work.next as int]@);
    work.report.note(mode, relative);
    assert(work@ == before.noting(mode));
    advance(work)
}

/// Turns a run to the next file, or to its end.
fn turn(mode: Mode, eol: Eol, platform: Platform, work: Work) -> (run: Run)
    requires
        work.well_formed(false),
    ensures
        run.well_formed(),
        run.reports_to(work.config.output),
        forall|from: RunView|
            from.mode == mode && from.eol == eol && from.separators == platform@ ==> run@ == #[trigger] from.turning(work@),
{
    assert(paths_view(work.files@).len() == work.files@.len());
    if work.next < work.files.len() {
        return Run { mode, eol, platform, stage: Stage::File(work) };
    }
    match work.config.output {
        Some(location) => {
            let text = work.report.listing(mode, eol);
            Run { mode, eol, platform, stage: Stage::Output { location, text, report: work.report } }
        },
        None => Run { mode, eol, platform, stage: Stage::Done(work.report.close(mode)) },
    }
}

/// Judges the file that is worked on.
fn judge(mode: Mode, eol: Eol, platform: Platform, work: Work, contents: &str, license: &str) -> (run: Run)
    requires
        work.well_formed(true),
    ensures
        run.well_formed(),
        run.reports_to(work.config.output),
        forall|from: RunView|
            from.mode == mode && from.eol == eol && from.separators == platform@ ==> run@ == #[trigger] from.judging(
                work@,
                contents@,
                license@,
            ),
{
    match judge_file(&work.config, mode, eol, contents, license) {
        Err(error) => Run { mode, eol, platform, stage: Stage::Done(Err(error)) },
        Ok(Verdict::Write(text)) => Run { mode, eol, platform, stage: Stage::Write { work, text } },
        Ok(Verdict::Missing) => turn(mode, eol, platform, note_and_advance(work, Mode::Check)),
        Ok(Verdict::Nothing) => turn(mode, eol, platform, advance(work)),
    }
}

/// Remembers the license for a kind of file.
fn remember(work: Work, key: String, text: &String) -> (after: Work)
    ensures
        after@ == work@.caching(key@, text@),
        after.config == work.config,
        forall|busy: bool| work.well_formed(busy) ==> after.well_formed(busy),
{
    let mut work = work;
    let ghost before = work;
    let ghost name = key@;
    let copy = text.clone();
    work.cache.insert(key, copy);
    assert(cache_view(work.cache@) =~= cache_view(before.cache@).insert(name, text@));
    work
}

impl Run {
    /// What is to be done next.
    pub fn request(&self) -> (request: Request)
        requires
            self.well_formed(),
        ensures
            request@ == self@.request(),
            request.fits(),
            match self.stage {
                Stage::Start { location, .. } => request == Request::ReadConfig(location),
                Stage::License { location, .. } => request == Request::ReadLicense(location),
                Stage::IgnoreFile { location, .. } => request == Request::ReadIgnoreFile(location),
                Stage::Format { location, .. } => request == Request::ReadFormat(location),
                Stage::Output { location, text, .. } => request == Request::WriteOutput(
                    location,
                    text,
                ),
                _ => true,
            },
    {
        match &self.stage {
            Stage::Start { location, .. } => Request::ReadConfig(location.clone()),
            Stage::License { location, .. } => Request::ReadLicense(location.clone()),
            Stage::IgnoreFile { location, .. } => Request::ReadIgnoreFile(location.clone()),
            Stage::Walk { .. } => Request::NextEntry,
            Stage::File(work) => Request::ReadFile(work.files[work.next].clone()),
            Stage::Format { location, .. } => Request::ReadFormat(location.clone()),
            Stage::Write { work, text } => Request::WriteFile(
                work.files[work.next].clone(),
                text.clone(),
            ),
            Stage::Output { location, text, .. } => Request::WriteOutput(
                location.clone(),
                text.clone(),
            ),
            Stage::Done(_) => Request::Finish,
        }
    }

    /// Goes on with what came of the request.
    pub fn step(self, event: Event) -> (run: Run)
        requires
            self.well_formed(),
            answers(self@.request(), event@),
        ensures
            run.well_formed(),
            run@ == self@.next(event@),
            self.output_place() matches Some(place) ==> run.reports_to(place),
            event matches Event::Failed(error) ==> run.stage == Stage::Done(Err(error)),
    {
        let mode = self.mode;
        let eol = self.eol;
        let platform = self.platform;
        match (self.stage, event) {
            (_, Event::Failed(error)) => Run { mode, eol, platform, stage: Stage::Done(Err(error)) },
            (Stage::Start { replacements, .. }, Event::Config(input)) => take_config(
                mode,
                eol,
                platform,
                input,
                replacements,
            ),
            (Stage::License { config, .. }, Event::Text(text)) => take_license(
                mode,
                eol,
                platform,
                config,
                text,
            ),
            (Stage::IgnoreFile { config, .. }, Event::IgnoreFile(text, path)) => begin_walk(
                mode,
                eol,
                platform,
                config,
                Some(text.as_str()),
                Some(normalize_relative_path(&path)),
            ),
            (Stage::Walk { config, rules, ignore_file, files }, Event::Entry(path, is_file)) =>
                take_entry(mode, eol, platform, config, rules, ignore_file, files, path, is_file),
            (Stage::Walk { config, files, .. }, Event::WalkEnded) => begin_work(
                mode,
                eol,
                platform,
                config,
                files,
            ),
            (Stage::File(work), Event::Text(contents)) => take_file(mode, eol, platform, work, contents),
            (Stage::Format { work, contents, key, .. }, Event::Text(text)) => {
                let work = remember(work, key, &text);
                judge(mode, eol, platform, work, contents.as_str(), text.as_str())
            },
            (Stage::Write { work, .. }, Event::Written) => turn(
                mode,
                eol,
                platform,
                note_and_advance(work, mode),
            ),
            (Stage::Output { report, .. }, Event::Written) => Run {
                mode,
                eol,
                platform,
                stage: Stage::Done(report.close(mode)),
            },
            (stage, _) => Run { mode, eol, platform, stage },
        }
    }

    /// How the run ended, if it is over.
    pub fn result(self) -> (result: Option<Result<Report, AppError>>)
        ensures
            match self.stage {
                Stage::Done(end) => result == Some(end),
                _ => result is None,
            },
    {
        match self.stage {
            Stage::Done(end) => Some(end),
            _ => None,
        }
    }
}

/// Begins the walk.
fn begin_walk(
    mode: Mode,
    eol: Eol,
    platform: Platform,
    config: Config,
    ignore_text: Option<&str>,
    ignore_file: Option<String>,
) -> (run: Run)
    requires
        config.fits(),
    ensures
        run.well_formed(),
        run.reports_to(config.output),
        forall|from: RunView|
            from.mode == mode && from.eol == eol && from.separators == platform@ ==> run@ == #[trigger] from.walking(
                config@,
                opt_str(ignore_text),
                opt_text(ignore_file),
            ),
{
    let files: Vec<FilePath> = Vec::new();
    assert(paths_view(files@) =~= Seq::<FilePathView>::empty());
    match load_rules(&config, ignore_text) {
        Ok(rules) => Run { mode, eol, platform, stage: Stage::Walk { config, rules, ignore_file, files } },
        Err(error) => Run { mode, eol, platform, stage: Stage::Done(Err(error)) },
    }
}

/// Takes the configuration.
fn take_config(mode: Mode, eol: Eol, platform: Platform, input: InputConfig, replacements: Option<Vec<String>>) -> (run:
    Run)
    ensures
        run.well_formed(),
        forall|from: RunView|
            from.mode == mode && from.eol == eol && from.separators == platform@ ==> run@ == #[trigger] from.with_config(
                input@,
                opt_texts(replacements),
            ),
{
    match load_config(input, mode, replacements) {
        Ok((config, location)) => Run { mode, eol, platform, stage: Stage::License { config, location } },
        Err(error) => Run { mode, eol, platform, stage: Stage::Done(Err(error)) },
    }
}

/// Takes the license.
fn take_license(mode: Mode, eol: Eol, platform: Platform, config: Config, text: String) -> (run: Run)
    requires
        config.fits(),
    ensures
        run.well_formed(),
        run.reports_to(config.output),
        forall|from: RunView|
            from.mode == mode && from.eol == eol && from.separators == platform@ ==> run@ == #[trigger] from.with_license(
                config@,
                text@,
            ),
{
    let mut config = config;
    let ghost full = ConfigView { license: text@, ..config@ };
    config.license = text;
    assert(config@ == full);
    let place = match &config.ignore_file {
        Some(path) => Some(resolve_path(path.as_str())),
        None => None,
    };
    match place {
        Some(location) => Run { mode, eol, platform, stage: Stage::IgnoreFile { config, location } },
        None => begin_walk(mode, eol, platform, config, None, None),
    }
}

/// Takes an entry of the tree.
fn take_entry(
    mode: Mode,
    eol: Eol,
    platform: Platform,
    config: Config,
    rules: Vec<IgnoreRule>,
    ignore_file: Option<String>,
    files: Vec<FilePath>,
    path: FilePath,
    is_file: bool,
) -> (run: Run)
    requires
        config.fits(),
    ensures
        run.well_formed(),
        run.reports_to(config.output),
        forall|from: RunView|
            from.mode == mode && from.eol == eol && from.separators == platform@ ==> run@
                == #[trigger] from.with_entry(
                config@,
                rules_view(rules@),
                opt_text(ignore_file),
                paths_view(files@),
                path@,
                is_file,
            ),
{
    let mut files = files;
    let relative = normalize_relative_path(&path);
    match keep_entry(relative.as_str(), is_file, &ignore_file, &rules, platform) {
        Ok(keep) => {
            if keep {
                let ghost grown = paths_view(files@).push(path@);
                files.push(path);
                assert(paths_view(files@) =~= grown);
            }
            Run { mode, eol, platform, stage: Stage::Walk { config, rules, ignore_file, files } }
        },
        Err(error) => Run { mode, eol, platform, stage: Stage::Done(Err(error)) },
    }
}

/// Begins the work on the files that were found.
fn begin_work(mode: Mode, eol: Eol, platform: Platform, config: Config, files: Vec<FilePath>) -> (run: Run)
    requires
        config.fits(),
    ensures
        run.well_formed(),
        run.reports_to(config.output),
        forall|from: RunView|
            from.mode == mode && from.eol == eol && from.separators == platform@ ==> run@ == #[trigger] from.turning(
                WorkView {
                    config: config@,
                    cache: Map::empty(),
                    report: empty_report(),
                    files: paths_view(files@),
                    next: 0,
                },
            ),
{
    let cache: StringHashMap<String> = StringHashMap::new();
    let formatter = Formatter::new(&config);
    let report = Report::default();
    let work = Work { config, formatter, cache, report, files, next: 0 };
    assert(cache_view(work.cache@) =~= Map::<Seq<char>, Seq<char>>::empty());
    turn(mode, eol, platform, work)
}

/// Takes a file.
fn take_file(mode: Mode, eol: Eol, platform: Platform, work: Work, contents: String) -> (run: Run)
    requires
        work.well_formed(true),
    ensures
        run.well_formed(),
        run.reports_to(work.config.output),
        forall|from: RunView|
            from.mode == mode && from.eol == eol && from.separators == platform@ ==> run@ == #[trigger] from.with_file(
                work@,
                contents@,
            ),
{
    let key = format_key(&work.files[work.next]);
    assert(paths_view(work.files@)[work.next as int] == work.files@[work.next as int]@);
    assert(cache_view(work.cache@).contains_key(key@) == work.cache@.contains_key(key@));
    let known = match work.cache.get(key.as_str()) {
        Some(text) => Some(text.clone()),
        None => None,
    };
    if let Some(text) = known {
        return judge(mode, eol, platform, work, contents.as_str(), text.as_str());
    }
    match work.formatter.format(key.as_str(), work.config.license.as_str(), eol) {
        Formatted::Text(text) => {
            assert(formatted(work@.config, key@, work@.config.license, eol)
                == FormattedView::Text(text@));
            let work = remember(work, key, &text);
            judge(mode, eol, platform, work, contents.as_str(), text.as_str())
        },
        Formatted::File(location) => {
            assert(formatted(work@.config, key@, work@.config.license, eol)
                == FormattedView::File(location.path()));
            Run { mode, eol, platform, stage: Stage::Format { work, contents, key, location } }
        },
    }
}

} // verus!
