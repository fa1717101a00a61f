//! What holds of whole runs.
use vstd::prelude::*;

use crate::config::{config_fault, loaded, ConfigView, InputView, Mode};
use crate::decide::{judged, VerdictView};
use crate::error::Fault;
use crate::format::{formatted, FormattedView};
use crate::ignore::{
    all_rules, default_ignored, default_ignored_stays_ignored, kept, own_rules, RuleView,
};
use crate::laws::{
    added_and_removed_is_unchanged, added_license_is_found, joins_the_ending, parts_at_a_line_feed,
    passes_for_license, searchable, written_with,
};
use crate::paths::{file_key, relative_path, FilePathView};
use crate::platform::Separators;
use crate::report::{closed, empty_report, ReportView};
use crate::run::{EventView, RequestView, RunView, StageView, WorkView};
use crate::text::{joined, Eol};

verus! {

// ---- Every run ----

/// A request that fails ends the run with what went wrong.
pub proof fn failure_ends_the_run(run: RunView, fault: Fault)
    ensures
        run.next(EventView::Failed(fault)) == run.ended(Err(fault)),
{
}

/// Whether a report lists files for one mode only.
pub open spec fn lists_only(report: ReportView, mode: Mode) -> bool {
    &&& mode != Mode::Add ==> report.inserted.len() == 0
    &&& mode != Mode::Check ==> report.missing.len() == 0
    &&& mode != Mode::Remove ==> report.removed.len() == 0
}

/// What holds of a run at every stage: a run that checks writes no file that
/// it found, a report lists files for the mode of the run only, and a check
/// that succeeds misses no license.
pub open spec fn keeps_to_its_mode(run: RunView) -> bool {
    match run.stage {
        StageView::File(work) => lists_only(work.report, run.mode),
        StageView::Format { work, .. } => lists_only(work.report, run.mode),
        StageView::Write { work, .. } => lists_only(work.report, run.mode) && run.mode
            != Mode::Check,
        StageView::Output { report, .. } => lists_only(report, run.mode),
        StageView::Done(Ok(report)) => lists_only(report, run.mode) && report.missing.len() == 0,
        _ => true,
    }
}

proof fn turning_keeps_to_the_mode(run: RunView, work: WorkView)
    requires
        lists_only(work.report, run.mode),
    ensures
        keeps_to_its_mode(run.turning(work)),
{
}

/// Only a check misses a license, and a check writes nothing.
proof fn judged_keeps_to_the_mode(
    config: ConfigView,
    mode: Mode,
    eol: Eol,
    contents: Seq<char>,
    license: Seq<char>,
)
    ensures
        judged(config, mode, eol, contents, license) matches Ok(VerdictView::Write(_)) ==> mode
            != Mode::Check,
        judged(config, mode, eol, contents, license) matches Ok(VerdictView::Missing) ==> mode
            == Mode::Check,
{
}

proof fn judging_keeps_to_the_mode(
    run: RunView,
    work: WorkView,
    contents: Seq<char>,
    license: Seq<char>,
)
    requires
        lists_only(work.report, run.mode),
    ensures
        keeps_to_its_mode(run.judging(work, contents, license)),
{
    judged_keeps_to_the_mode(work.config, run.mode, run.eol, contents, license);
    match judged(work.config, run.mode, run.eol, contents, license) {
        Ok(VerdictView::Missing) => {
            turning_keeps_to_the_mode(run, work.noting(Mode::Check).turned());
        },
        Ok(VerdictView::Nothing) => {
            turning_keeps_to_the_mode(run, work.turned());
        },
        _ => {},
    }
}

/// A run keeps to its mode whatever it is told.
pub proof fn every_step_keeps_to_the_mode(run: RunView, event: EventView)
    requires
        keeps_to_its_mode(run),
    ensures
        keeps_to_its_mode(run.next(event)),
        run.next(event).mode == run.mode,
        run.next(event).eol == run.eol,
        run.next(event).separators == run.separators,
{
    match (run.stage, event) {
        (StageView::Walk { config, files, .. }, EventView::WalkEnded) => {
            turning_keeps_to_the_mode(run, first_work(config, files));
        },
        (StageView::File(work), EventView::Text(contents)) => {
            let key = file_key(work.files[work.next as int]);
            if work.cache.contains_key(key) {
                judging_keeps_to_the_mode(run, work, contents, work.cache[key]);
            } else {
                match formatted(work.config, key, work.config.license, run.eol) {
                    FormattedView::Text(text) => {
                        judging_keeps_to_the_mode(run, work.caching(key, text), contents, text);
                    },
                    FormattedView::File(_) => {},
                }
            }
        },
        (StageView::Format { work, contents, key, .. }, EventView::Text(text)) => {
            judging_keeps_to_the_mode(run, work.caching(key, text), contents, text);
        },
        (StageView::Write { work, .. }, EventView::Written) => {
            turning_keeps_to_the_mode(run, work.noting(run.mode).turned());
        },
        _ => {},
    }
}

/// The run after a number of events.
pub open spec fn after(run: RunView, events: Seq<EventView>) -> RunView
    decreases events.len(),
{
    if events.len() == 0 {
        run
    } else {
        after(run, events.drop_last()).next(events.last())
    }
}

/// From the start on, a run keeps to its mode.
pub proof fn every_run_keeps_to_its_mode(run: RunView, events: Seq<EventView>)
    requires
        run.stage is Start,
    ensures
        keeps_to_its_mode(after(run, events)),
        after(run, events).mode == run.mode,
        after(run, events).eol == run.eol,
        after(run, events).separators == run.separators,
    decreases events.len(),
{
    if events.len() > 0 {
        every_run_keeps_to_its_mode(run, events.drop_last());
        every_step_keeps_to_the_mode(after(run, events.drop_last()), events.last());
    }
}

/// A run that checks never asks for a file that it found to be written.
pub proof fn a_check_writes_no_file(run: RunView, events: Seq<EventView>)
    requires
        run.stage is Start,
        run.mode == Mode::Check,
    ensures
        !(after(run, events).request() is WriteFile),
{
    every_run_keeps_to_its_mode(run, events);
}

// ---- The walk ----

/// Whether an entry of a walk is a file to work on.
pub open spec fn entry_kept(
    entry: (FilePathView, bool),
    rules: Seq<RuleView>,
    ignore_file: Option<Seq<char>>,
    separators: Separators,
) -> Result<bool, Fault> {
    kept(relative_path(entry.0), entry.1, ignore_file, rules, separators)
}

/// The entries of a walk that are kept: the files that are not the ignore file
/// and that the rules do not leave alone, in the order in which they were found.
pub open spec fn kept_files(
    entries: Seq<(FilePathView, bool)>,
    rules: Seq<RuleView>,
    ignore_file: Option<Seq<char>>,
    separators: Separators,
) -> Seq<FilePathView>
    decreases entries.len(),
{
    if entries.len() == 0 {
        Seq::empty()
    } else {
        let before = kept_files(entries.drop_last(), rules, ignore_file, separators);
        if entry_kept(entries.last(), rules, ignore_file, separators) == Ok::<bool, Fault>(true) {
            before.push(entries.last().0)
        } else {
            before
        }
    }
}

/// Whether no rule fails on an entry of a walk that the rules are asked about.
pub open spec fn walks_without_fault(
    entries: Seq<(FilePathView, bool)>,
    rules: Seq<RuleView>,
    ignore_file: Option<Seq<char>>,
    separators: Separators,
) -> bool {
    forall|i: int|
        0 <= i < entries.len() ==> entry_kept(
            #[trigger] entries[i],
            rules,
            ignore_file,
            separators,
        ) is Ok
}

/// The walk as events.
pub open spec fn entry_events(entries: Seq<(FilePathView, bool)>) -> Seq<EventView> {
    entries.map_values(|entry: (FilePathView, bool)| EventView::Entry(entry.0, entry.1))
}

/// A walk without a fault keeps exactly the files that are not the ignore file
/// and that the rules do not leave alone, and when it has ended the run turns
/// to them.
pub proof fn a_walk_finds_what_is_kept(
    run: RunView,
    config: ConfigView,
    ignore_text: Option<Seq<char>>,
    ignore_file: Option<Seq<char>>,
    entries: Seq<(FilePathView, bool)>,
)
    requires
        walks_without_fault(
            entries,
            all_rules(config, ignore_text),
            ignore_file,
            run.separators,
        ),
    ensures
        ({
            let rules = all_rules(config, ignore_text);
            let files = kept_files(entries, rules, ignore_file, run.separators);
            let walked = after(run.walking(config, ignore_text, ignore_file), entry_events(entries));
            &&& walked == run.at(StageView::Walk { config, rules, ignore_file, files })
            &&& walked.next(EventView::WalkEnded) == run.turning(first_work(config, files))
        }),
    decreases entries.len(),
{
    let rules = all_rules(config, ignore_text);
    let start = run.walking(config, ignore_text, ignore_file);
    let files = kept_files(entries, rules, ignore_file, run.separators);
    if entries.len() > 0 {
        let front = entries.drop_last();
        assert(forall|i: int| 0 <= i < front.len() ==> #[trigger] front[i] == entries[i]);
        a_walk_finds_what_is_kept(run, config, ignore_text, ignore_file, front);
        assert(entry_events(entries).drop_last() == entry_events(front));
        let entry = entries[entries.len() - 1];
        assert(entry_events(entries).last() == EventView::Entry(entry.0, entry.1));
        let before = kept_files(front, rules, ignore_file, run.separators);
        let here = run.at(StageView::Walk { config, rules, ignore_file, files: before });
        entry_is_taken(run, config, rules, ignore_file, before, entry);
        assert(after(start, entry_events(entries)) == here.next(
            EventView::Entry(entry.0, entry.1),
        ));
    } else {
        assert(entry_events(entries) == Seq::<EventView>::empty());
    }
    walk_is_over(run, config, rules, ignore_file, files);
}

/// A walk ends with the first fault that a rule finds in an entry.
pub proof fn a_walk_stops_at_a_fault(
    run: RunView,
    config: ConfigView,
    ignore_text: Option<Seq<char>>,
    ignore_file: Option<Seq<char>>,
    entries: Seq<(FilePathView, bool)>,
    entry: (FilePathView, bool),
    fault: Fault,
)
    requires
        walks_without_fault(
            entries,
            all_rules(config, ignore_text),
            ignore_file,
            run.separators,
        ),
        entry_kept(entry, all_rules(config, ignore_text), ignore_file, run.separators) == Err::<
            bool,
            Fault,
        >(fault),
    ensures
        after(
            run.walking(config, ignore_text, ignore_file),
            entry_events(entries).push(EventView::Entry(entry.0, entry.1)),
        ) == run.ended(Err(fault)),
{
    let rules = all_rules(config, ignore_text);
    let files = kept_files(entries, rules, ignore_file, run.separators);
    let events = entry_events(entries).push(EventView::Entry(entry.0, entry.1));
    a_walk_finds_what_is_kept(run, config, ignore_text, ignore_file, entries);
    assert(events.drop_last() == entry_events(entries));
    entry_is_taken(run, config, rules, ignore_file, files, entry);
}

proof fn entry_is_taken(
    run: RunView,
    config: ConfigView,
    rules: Seq<RuleView>,
    ignore_file: Option<Seq<char>>,
    files: Seq<FilePathView>,
    entry: (FilePathView, bool),
)
    ensures
        run.at(StageView::Walk { config, rules, ignore_file, files }).next(
            EventView::Entry(entry.0, entry.1),
        ) == match entry_kept(entry, rules, ignore_file, run.separators) {
            Ok(true) => run.at(
                StageView::Walk { config, rules, ignore_file, files: files.push(entry.0) },
            ),
            Ok(false) => run.at(StageView::Walk { config, rules, ignore_file, files }),
            Err(fault) => run.ended(Err(fault)),
        },
{
}

proof fn walk_is_over(
    run: RunView,
    config: ConfigView,
    rules: Seq<RuleView>,
    ignore_file: Option<Seq<char>>,
    files: Seq<FilePathView>,
)
    ensures
        run.at(StageView::Walk { config, rules, ignore_file, files }).next(EventView::WalkEnded)
            == run.turning(first_work(config, files)),
{
}

/// A file is worked on if and only if an entry of the walk for it is kept.
pub proof fn kept_files_are_the_kept_entries(
    entries: Seq<(FilePathView, bool)>,
    rules: Seq<RuleView>,
    ignore_file: Option<Seq<char>>,
    separators: Separators,
    path: FilePathView,
)
    ensures
        kept_files(entries, rules, ignore_file, separators).contains(path) <==> exists|i: int|
            0 <= i < entries.len() && (#[trigger] entries[i]).0 == path && entry_kept(
                entries[i],
                rules,
                ignore_file,
                separators,
            ) == Ok::<bool, Fault>(true),
    decreases entries.len(),
{
    if entries.len() > 0 {
        let last = entries.len() - 1;
        let front = entries.drop_last();
        kept_files_are_the_kept_entries(front, rules, ignore_file, separators, path);
        let before = kept_files(front, rules, ignore_file, separators);
        one_more_holds(before, entries[last].0, path);
        assert(forall|i: int| 0 <= i < front.len() ==> #[trigger] front[i] == entries[i]);
        if exists|i: int|
            0 <= i < entries.len() && (#[trigger] entries[i]).0 == path && entry_kept(
                entries[i],
                rules,
                ignore_file,
                separators,
            ) == Ok::<bool, Fault>(true) {
            let i = choose|i: int|
                0 <= i < entries.len() && (#[trigger] entries[i]).0 == path && entry_kept(
                    entries[i],
                    rules,
                    ignore_file,
                    separators,
                ) == Ok::<bool, Fault>(true);
            if i < last {
                assert(front[i].0 == path);
            }
        }
        if before.contains(path) {
            let i = choose|i: int|
                0 <= i < front.len() && (#[trigger] front[i]).0 == path && entry_kept(
                    front[i],
                    rules,
                    ignore_file,
                    separators,
                ) == Ok::<bool, Fault>(true);
            assert(entries[i].0 == path);
        }
    }
}

/// A walk that names no file twice finds none twice.
pub proof fn kept_files_are_distinct(
    entries: Seq<(FilePathView, bool)>,
    rules: Seq<RuleView>,
    ignore_file: Option<Seq<char>>,
    separators: Separators,
)
    requires
        forall|i: int, j: int|
            0 <= i < j < entries.len() ==> (#[trigger] entries[i]).0 != (#[trigger] entries[j]).0,
    ensures
        kept_files(entries, rules, ignore_file, separators).no_duplicates(),
    decreases entries.len(),
{
    if entries.len() > 0 {
        let last = entries.len() - 1;
        let front = entries.drop_last();
        assert(forall|i: int| 0 <= i < front.len() ==> #[trigger] front[i] == entries[i]);
        kept_files_are_distinct(front, rules, ignore_file, separators);
        let path = entries[last].0;
        kept_files_are_the_kept_entries(front, rules, ignore_file, separators, path);
        assert(!kept_files(front, rules, ignore_file, separators).contains(path));
    }
}

/// With the default rules in use, a walk finds what it would find without
/// them, less the files that a default glob matches, themselves or by a
/// directory above: no other rule brings such a file back.
pub proof fn default_rules_only_narrow_a_walk(
    config: ConfigView,
    ignore_text: Option<Seq<char>>,
    ignore_file: Option<Seq<char>>,
    entries: Seq<(FilePathView, bool)>,
    separators: Separators,
)
    requires
        !config.ignore_default_ignores,
        walks_without_fault(entries, all_rules(config, ignore_text), ignore_file, separators),
    ensures
        walks_without_fault(entries, own_rules(config, ignore_text), ignore_file, separators),
        kept_files(entries, all_rules(config, ignore_text), ignore_file, separators) == kept_files(
            entries,
            own_rules(config, ignore_text),
            ignore_file,
            separators,
        ).filter(|path: FilePathView| !default_ignored(relative_path(path), separators)),
    decreases entries.len(),
{
    let rules = all_rules(config, ignore_text);
    let own = own_rules(config, ignore_text);
    assert forall|i: int| 0 <= i < entries.len() implies entry_kept(
        #[trigger] entries[i],
        own,
        ignore_file,
        separators,
    ) is Ok by {
        assert(entry_kept(entries[i], rules, ignore_file, separators) is Ok);
        default_rules_only_narrow(config, ignore_text, ignore_file, entries[i], separators);
    }
    reveal(Seq::filter);
    if entries.len() > 0 {
        let last = entries.len() - 1;
        let front = entries.drop_last();
        assert(forall|i: int| 0 <= i < front.len() ==> #[trigger] front[i] == entries[i]);
        default_rules_only_narrow_a_walk(config, ignore_text, ignore_file, front, separators);
        assert(entry_kept(entries[last], rules, ignore_file, separators) is Ok);
        default_rules_only_narrow(config, ignore_text, ignore_file, entries[last], separators);
        let some = kept_files(front, own, ignore_file, separators);
        assert(some.push(entries[last].0).drop_last() == some);
    }
}

/// With the default rules in use, an entry is kept if and only if it would be
/// kept without them and no default glob matches it.
proof fn default_rules_only_narrow(
    config: ConfigView,
    ignore_text: Option<Seq<char>>,
    ignore_file: Option<Seq<char>>,
    entry: (FilePathView, bool),
    separators: Separators,
)
    requires
        !config.ignore_default_ignores,
        entry_kept(entry, all_rules(config, ignore_text), ignore_file, separators) is Ok,
    ensures
        entry_kept(entry, own_rules(config, ignore_text), ignore_file, separators) is Ok,
        entry_kept(entry, all_rules(config, ignore_text), ignore_file, separators)->Ok_0 == (
        entry_kept(entry, own_rules(config, ignore_text), ignore_file, separators)->Ok_0
            && !default_ignored(relative_path(entry.0), separators)),
{
    if entry.1 && ignore_file != Some(relative_path(entry.0)) {
        default_ignored_stays_ignored(config, ignore_text, relative_path(entry.0), separators);
    }
}

// ---- A run over the files that were found ----

/// The work that begins when the walk has found the files.
pub open spec fn first_work(config: ConfigView, files: Seq<FilePathView>) -> WorkView {
    WorkView { config, cache: Map::empty(), report: empty_report(), files, next: 0 }
}

/// What runs go by: the configuration, the line ending in use, and the texts
/// of the files that formats name.
pub struct Setting {
    pub config: ConfigView,
    pub eol: Eol,
    pub named: Map<Seq<char>, Seq<char>>,
}

/// The run and the files on disk when the next requests were met, up to a
/// number of them. The report goes to a file apart from those that were found.
pub open spec fn served(
    run: RunView,
    named: Map<Seq<char>, Seq<char>>,
    disk: Map<FilePathView, Seq<char>>,
    steps: nat,
) -> (RunView, Map<FilePathView, Seq<char>>)
    decreases steps,
{
    if steps == 0 {
        (run, disk)
    } else {
        match run.request() {
            RequestView::ReadFile(path) => served(
                run.next(EventView::Text(disk[path])),
                named,
                disk,
                (steps - 1) as nat,
            ),
            RequestView::ReadFormat(path) => served(
                run.next(EventView::Text(named[path])),
                named,
                disk,
                (steps - 1) as nat,
            ),
            RequestView::WriteFile(path, text) => served(
                run.next(EventView::Written),
                named,
                disk.insert(path, text),
                (steps - 1) as nat,
            ),
            RequestView::WriteOutput(_, _) => served(
                run.next(EventView::Written),
                named,
                disk,
                (steps - 1) as nat,
            ),
            _ => (run, disk),
        }
    }
}

/// The license as it is written for a kind of file.
pub open spec fn license_for(setting: Setting, key: Seq<char>) -> Seq<char> {
    match formatted(setting.config, key, setting.config.license, setting.eol) {
        FormattedView::Text(text) => text,
        FormattedView::File(path) => setting.named[path],
    }
}

/// What is decided of a file with the given contents.
#[verifier::opaque]
pub open spec fn verdict(
    setting: Setting,
    mode: Mode,
    file: FilePathView,
    contents: Seq<char>,
) -> Result<VerdictView, Fault> {
    judged(setting.config, mode, setting.eol, contents, license_for(setting, file_key(file)))
}

/// The files on disk when each in turn was given the text that was decided.
pub open spec fn disk_after(
    setting: Setting,
    mode: Mode,
    files: Seq<FilePathView>,
    disk: Map<FilePathView, Seq<char>>,
) -> Map<FilePathView, Seq<char>>
    decreases files.len(),
{
    if files.len() == 0 {
        disk
    } else {
        let file = files.last();
        let before = disk_after(setting, mode, files.drop_last(), disk);
        match verdict(setting, mode, file, before[file]) {
            Ok(VerdictView::Write(text)) => before.insert(file, text),
            _ => before,
        }
    }
}

/// The report on the files: those that were changed or miss the license, in
/// the order in which they were found.
pub open spec fn report_after(
    setting: Setting,
    mode: Mode,
    files: Seq<FilePathView>,
    disk: Map<FilePathView, Seq<char>>,
) -> ReportView
    decreases files.len(),
{
    if files.len() == 0 {
        empty_report()
    } else {
        let file = files.last();
        let before = report_after(setting, mode, files.drop_last(), disk);
        let contents = disk_after(setting, mode, files.drop_last(), disk)[file];
        match verdict(setting, mode, file, contents) {
            Ok(VerdictView::Write(_)) => before.with(mode, relative_path(file)),
            Ok(VerdictView::Missing) => before.with(Mode::Check, relative_path(file)),
            _ => before,
        }
    }
}

/// What is decided of a file in turn, when the files before it were worked on.
pub open spec fn verdict_in_turn(
    setting: Setting,
    mode: Mode,
    files: Seq<FilePathView>,
    disk: Map<FilePathView, Seq<char>>,
    index: int,
) -> Result<VerdictView, Fault> {
    let contents = disk_after(setting, mode, files.take(index), disk)[files[index]];
    verdict(setting, mode, files[index], contents)
}

/// Whether something is decided of each of the first files in turn, and no
/// fault is found.
pub open spec fn decides_each(
    setting: Setting,
    mode: Mode,
    files: Seq<FilePathView>,
    disk: Map<FilePathView, Seq<char>>,
    count: int,
) -> bool {
    forall|i: int|
        0 <= i < count ==> (#[trigger] verdict_in_turn(setting, mode, files, disk, i)) is Ok
}

/// A file that was not worked on is as it was.
proof fn disk_after_keeps(
    setting: Setting,
    mode: Mode,
    files: Seq<FilePathView>,
    disk: Map<FilePathView, Seq<char>>,
    other: FilePathView,
)
    requires
        !files.contains(other),
    ensures
        disk_after(setting, mode, files, disk)[other] == disk[other],
    decreases files.len(),
{
    if files.len() > 0 {
        let front = files.drop_last();
        assert(!front.contains(other)) by {
            if front.contains(other) {
                let i = choose|i: int| 0 <= i < front.len() && front[i] == other;
                assert(files[i] == other);
            }
        }
        assert(files[files.len() - 1] == files.last());
        disk_after_keeps(setting, mode, front, disk, other);
    }
}

/// Whether the work goes by a setting: the configuration is that of the
/// setting, and every text of the cache is the license for its kind of file.
spec fn goes_by(work: WorkView, setting: Setting) -> bool {
    &&& work.config == setting.config
    &&& forall|key: Seq<char>| #[trigger]
        work.cache.contains_key(key) ==> work.cache[key] == license_for(setting, key)
}

/// The work with the license for the file that is worked on in the cache.
spec fn knowing(work: WorkView, setting: Setting) -> WorkView {
    let key = file_key(work.files[work.next as int]);
    if work.cache.contains_key(key) {
        work
    } else {
        work.caching(key, license_for(setting, key))
    }
}

/// The run when the license for a file is known, by what is decided of it.
spec fn deciding(
    run: RunView,
    work: WorkView,
    decided: Result<VerdictView, Fault>,
) -> RunView {
    match decided {
        Ok(VerdictView::Write(text)) => run.at(StageView::Write { work, text }),
        Ok(VerdictView::Missing) => run.turning(work.noting(Mode::Check).turned()),
        Ok(VerdictView::Nothing) => run.turning(work.turned()),
        Err(fault) => run.ended(Err(fault)),
    }
}

proof fn judging_is_deciding(
    run: RunView,
    setting: Setting,
    work: WorkView,
    file: FilePathView,
    contents: Seq<char>,
)
    requires
        run.eol == setting.eol,
        work.config == setting.config,
    ensures
        run.judging(work, contents, license_for(setting, file_key(file))) == deciding(
            run,
            work,
            verdict(setting, run.mode, file, contents),
        ),
{
    reveal(verdict);
}

/// What a run does with a file that was read: it goes by the license for the
/// file, or reads the license first.
proof fn file_is_taken(run: RunView, setting: Setting, work: WorkView, contents: Seq<char>)
    requires
        work.next < work.files.len(),
        run.eol == setting.eol,
        goes_by(work, setting),
    ensures
        run.turning(work).request() == RequestView::ReadFile(work.files[work.next as int]),
        goes_by(knowing(work, setting), setting),
        ({
            let file = work.files[work.next as int];
            let key = file_key(file);
            let then = run.turning(work).next(EventView::Text(contents));
            let judged = run.judging(knowing(work, setting), contents, license_for(setting, key));
            ||| then == judged
            ||| {
                &&& formatted(work.config, key, work.config.license, run.eol) matches
                    FormattedView::File(path)
                &&& then.request() == RequestView::ReadFormat(path)
                &&& then.next(EventView::Text(setting.named[path])) == judged
            }
        }),
{
    let file = work.files[work.next as int];
    let key = file_key(file);
    let now = run.turning(work);
    assert(now.stage == StageView::File(work));
    let then = now.next(EventView::Text(contents));
    assert(then == now.with_file(work, contents));
    if !work.cache.contains_key(key) {
        match formatted(work.config, key, work.config.license, run.eol) {
            FormattedView::Text(text) => {},
            FormattedView::File(path) => {
                assert(then.stage == StageView::Format { work, contents, key, path });
            },
        }
    }
}

/// A file that was written is noted, and the run turns to the next.
proof fn file_is_noted(run: RunView, work: WorkView, text: Seq<char>)
    ensures
        run.at(StageView::Write { work, text }).request() == RequestView::WriteFile(
            work.files[work.next as int],
            text,
        ),
        run.at(StageView::Write { work, text }).next(EventView::Written) == run.turning(
            work.noting(run.mode).turned(),
        ),
{
}

proof fn served_read(
    run: RunView,
    named: Map<Seq<char>, Seq<char>>,
    disk: Map<FilePathView, Seq<char>>,
    steps: nat,
)
    requires
        steps > 0,
    ensures
        run.request() matches RequestView::ReadFile(path) ==> served(run, named, disk, steps)
            == served(run.next(EventView::Text(disk[path])), named, disk, (steps - 1) as nat),
        run.request() matches RequestView::ReadFormat(path) ==> served(run, named, disk, steps)
            == served(run.next(EventView::Text(named[path])), named, disk, (steps - 1) as nat),
{
}

proof fn served_write(
    run: RunView,
    named: Map<Seq<char>, Seq<char>>,
    disk: Map<FilePathView, Seq<char>>,
    steps: nat,
)
    requires
        steps > 0,
    ensures
        run.request() matches RequestView::WriteFile(path, text) ==> served(run, named, disk, steps)
            == served(
            run.next(EventView::Written),
            named,
            disk.insert(path, text),
            (steps - 1) as nat,
        ),
{
}

/// A file is read, with its license where a file holds that, and what is
/// decided of it is what the run does next. The number of requests that may
/// still be met is returned.
proof fn file_is_decided(
    run: RunView,
    setting: Setting,
    work: WorkView,
    disk: Map<FilePathView, Seq<char>>,
    steps: nat,
) -> (left: nat)
    requires
        work.next < work.files.len(),
        run.eol == setting.eol,
        goes_by(work, setting),
        steps >= 2,
    ensures
        left >= steps - 2,
        goes_by(knowing(work, setting), setting),
        ({
            let file = work.files[work.next as int];
            let decided = verdict(setting, run.mode, file, disk[file]);
            served(run.turning(work), setting.named, disk, steps) == served(
                deciding(run, knowing(work, setting), decided),
                setting.named,
                disk,
                left,
            )
        }),
{
    let file = work.files[work.next as int];
    let contents = disk[file];
    let known = knowing(work, setting);
    file_is_taken(run, setting, work, contents);
    judging_is_deciding(run, setting, known, file, contents);
    served_read(run.turning(work), setting.named, disk, steps);
    let then = run.turning(work).next(EventView::Text(contents));
    let rest = (steps - 1) as nat;
    served_read(then, setting.named, disk, rest);
    if then == run.judging(known, contents, license_for(setting, file_key(file))) {
        rest
    } else {
        (rest - 1) as nat
    }
}

/// A run that is over asks for nothing more.
proof fn served_end(
    run: RunView,
    result: Result<ReportView, Fault>,
    named: Map<Seq<char>, Seq<char>>,
    disk: Map<FilePathView, Seq<char>>,
    steps: nat,
)
    ensures
        served(run.ended(result), named, disk, steps) == (run.ended(result), disk),
{
    assert(run.ended(result).request() == RequestView::Finish);
}

/// When the report was written, the run is over.
proof fn served_output(
    run: RunView,
    path: Seq<char>,
    text: Seq<char>,
    report: ReportView,
    named: Map<Seq<char>, Seq<char>>,
    disk: Map<FilePathView, Seq<char>>,
    steps: nat,
)
    requires
        steps > 0,
    ensures
        served(run.at(StageView::Output { path, text, report }), named, disk, steps) == (
            run.ended(closed(report, run.mode)),
            disk,
        ),
{
    let now = run.at(StageView::Output { path, text, report });
    assert(now.request() == RequestView::WriteOutput(path, text));
    assert(now.next(EventView::Written) == run.ended(closed(report, run.mode)));
    served_end(run, closed(report, run.mode), named, disk, (steps - 1) as nat);
}

/// Where no file is left, the run ends with the report.
proof fn work_ends(
    run: RunView,
    work: WorkView,
    named: Map<Seq<char>, Seq<char>>,
    disk: Map<FilePathView, Seq<char>>,
    steps: nat,
)
    requires
        work.next == work.files.len(),
        steps > 0,
    ensures
        served(run.turning(work), named, disk, steps) == (
            run.ended(closed(work.report, run.mode)),
            disk,
        ),
{
    match work.config.output {
        Some(path) => {
            let text = joined(work.report.selected(run.mode), run.eol.chars());
            served_output(run, path, text, work.report, named, disk, steps);
        },
        None => {
            served_end(run, closed(work.report, run.mode), named, disk, steps);
        },
    }
}

/// A run reaches a file when something was decided of each file before. The
/// work is returned, with the number of requests that may still be met.
proof fn work_reaches(
    run: RunView,
    setting: Setting,
    files: Seq<FilePathView>,
    disk: Map<FilePathView, Seq<char>>,
    index: int,
    steps: nat,
) -> (reached: (WorkView, nat))
    requires
        0 <= index <= files.len(),
        run.eol == setting.eol,
        decides_each(setting, run.mode, files, disk, index),
        steps >= 3 * index,
    ensures
        reached.0.files == files,
        reached.0.next == index,
        reached.0.report == report_after(setting, run.mode, files.take(index), disk),
        goes_by(reached.0, setting),
        reached.1 >= steps - 3 * index,
        served(run.turning(first_work(setting.config, files)), setting.named, disk, steps)
            == served(
            run.turning(reached.0),
            setting.named,
            disk_after(setting, run.mode, files.take(index), disk),
            reached.1,
        ),
    decreases index,
{
    let mode = run.mode;
    if index == 0 {
        assert(files.take(0) == Seq::<FilePathView>::empty());
        (first_work(setting.config, files), steps)
    } else {
        let at = index - 1;
        let file = files[at];
        let done = files.take(at);
        let more = files.take(index);
        assert(more.drop_last() == done);
        assert(more.last() == file);
        let (work, rest) = work_reaches(run, setting, files, disk, at, steps);
        let now = disk_after(setting, mode, done, disk);
        let left = file_is_decided(run, setting, work, now, rest);
        let known = knowing(work, setting);
        assert(verdict_in_turn(setting, mode, files, disk, at) is Ok);
        match verdict(setting, mode, file, now[file]) {
            Ok(VerdictView::Write(text)) => {
                file_is_noted(run, known, text);
                served_write(
                    run.at(StageView::Write { work: known, text }),
                    setting.named,
                    now,
                    left,
                );
                (known.noting(mode).turned(), (left - 1) as nat)
            },
            Ok(VerdictView::Missing) => (known.noting(Mode::Check).turned(), left),
            _ => (known.turned(), left),
        }
    }
}

/// A run does to each file that was found, in turn, what is decided of its
/// contents, leaves every other file as it is, and ends with a report on
/// exactly the files that it changed or that miss the license.
pub proof fn a_run_does_what_is_decided(
    run: RunView,
    setting: Setting,
    files: Seq<FilePathView>,
    disk: Map<FilePathView, Seq<char>>,
    steps: nat,
)
    requires
        run.eol == setting.eol,
        decides_each(setting, run.mode, files, disk, files.len() as int),
        steps > 3 * files.len(),
    ensures
        served(run.turning(first_work(setting.config, files)), setting.named, disk, steps) == (
            run.ended(closed(report_after(setting, run.mode, files, disk), run.mode)),
            disk_after(setting, run.mode, files, disk),
        ),
        forall|other: FilePathView|
            !files.contains(other) ==> #[trigger] disk_after(setting, run.mode, files, disk)[other]
                == disk[other],
{
    let count = files.len() as int;
    assert(files.take(count) == files);
    let (work, left) = work_reaches(run, setting, files, disk, count, steps);
    work_ends(run, work, setting.named, disk_after(setting, run.mode, files, disk), left);
    assert forall|other: FilePathView| !files.contains(other) implies #[trigger] disk_after(
        setting,
        run.mode,
        files,
        disk,
    )[other] == disk[other] by {
        disk_after_keeps(setting, run.mode, files, disk, other);
    }
}

/// A run that finds a fault in a file ends with it; what was decided of the
/// files before is done, and no other file is changed.
pub proof fn a_run_stops_at_a_fault(
    run: RunView,
    setting: Setting,
    files: Seq<FilePathView>,
    disk: Map<FilePathView, Seq<char>>,
    index: int,
    fault: Fault,
    steps: nat,
)
    requires
        run.eol == setting.eol,
        0 <= index < files.len(),
        decides_each(setting, run.mode, files, disk, index),
        verdict_in_turn(setting, run.mode, files, disk, index) == Err::<VerdictView, Fault>(fault),
        steps > 3 * files.len(),
    ensures
        served(run.turning(first_work(setting.config, files)), setting.named, disk, steps) == (
            run.ended(Err(fault)),
            disk_after(setting, run.mode, files.take(index), disk),
        ),
{
    let now = disk_after(setting, run.mode, files.take(index), disk);
    let (work, rest) = work_reaches(run, setting, files, disk, index, steps);
    let left = file_is_decided(run, setting, work, now, rest);
    served_end(run, Err(fault), setting.named, now, left);
}

/// A run that succeeds found no fault.
pub proof fn a_run_that_succeeds_finds_no_fault(
    run: RunView,
    setting: Setting,
    files: Seq<FilePathView>,
    disk: Map<FilePathView, Seq<char>>,
    steps: nat,
    count: int,
)
    requires
        run.eol == setting.eol,
        0 <= count <= files.len(),
        steps > 3 * files.len(),
        served(
            run.turning(first_work(setting.config, files)),
            setting.named,
            disk,
            steps,
        ).0.stage matches StageView::Done(Ok(_)),
    ensures
        decides_each(setting, run.mode, files, disk, count),
    decreases count,
{
    if count > 0 {
        let index = count - 1;
        a_run_that_succeeds_finds_no_fault(run, setting, files, disk, steps, index);
        if let Err(fault) = verdict_in_turn(setting, run.mode, files, disk, index) {
            a_run_stops_at_a_fault(run, setting, files, disk, index, fault, steps);
        }
    }
}

/// Where nothing is to be done, nothing is done and nothing is reported.
proof fn nothing_to_do(
    setting: Setting,
    mode: Mode,
    files: Seq<FilePathView>,
    disk: Map<FilePathView, Seq<char>>,
)
    requires
        forall|i: int|
            0 <= i < files.len() ==> verdict(setting, mode, #[trigger] files[i], disk[files[i]])
                == Ok::<VerdictView, Fault>(VerdictView::Nothing),
    ensures
        disk_after(setting, mode, files, disk) == disk,
        report_after(setting, mode, files, disk) == empty_report(),
        decides_each(setting, mode, files, disk, files.len() as int),
    decreases files.len(),
{
    if files.len() > 0 {
        let front = files.drop_last();
        let last = files.len() - 1;
        assert(forall|i: int| 0 <= i < front.len() ==> #[trigger] front[i] == files[i]);
        nothing_to_do(setting, mode, front, disk);
        assert(files[last] == files.last());
        assert forall|i: int| 0 <= i < files.len() implies (#[trigger] verdict_in_turn(
            setting,
            mode,
            files,
            disk,
            i,
        )) is Ok by {
            if i < last {
                assert(front.take(i) == files.take(i));
                assert(verdict_in_turn(setting, mode, front, disk, i) is Ok);
            } else {
                assert(files.take(i) == front);
            }
        }
    }
}

/// What is decided of a file after the license was added: nothing.
proof fn verdict_after_adding(
    setting: Setting,
    file: FilePathView,
    contents: Seq<char>,
    mode: Mode,
)
    requires
        setting.config.regex is None,
        !(setting.config.trim_trailing_whitespace && joins_the_ending(
            license_for(setting, file_key(file)),
            setting.eol,
        )),
        verdict(setting, Mode::Add, file, contents) is Ok,
        mode != Mode::Remove,
    ensures
        verdict(
            setting,
            mode,
            file,
            match verdict(setting, Mode::Add, file, contents) {
                Ok(VerdictView::Write(text)) => text,
                _ => contents,
            },
        ) == Ok::<VerdictView, Fault>(VerdictView::Nothing),
{
    reveal(verdict);
    let license = license_for(setting, file_key(file));
    match judged(setting.config, Mode::Add, setting.eol, contents, license) {
        Ok(VerdictView::Write(text)) => {
            added_license_is_found(setting.config, setting.eol, contents, license, text);
        },
        _ => {},
    }
}

/// When the license was added to the first files, nothing more is decided of
/// them.
proof fn added_so_far(
    setting: Setting,
    files: Seq<FilePathView>,
    disk: Map<FilePathView, Seq<char>>,
    mode: Mode,
    count: int,
)
    requires
        0 <= count <= files.len(),
        setting.config.regex is None,
        forall|i: int|
            0 <= i < files.len() ==> !(setting.config.trim_trailing_whitespace && joins_the_ending(
                license_for(setting, file_key(#[trigger] files[i])),
                setting.eol,
            )),
        decides_each(setting, Mode::Add, files, disk, count),
        mode != Mode::Remove,
    ensures
        forall|i: int|
            0 <= i < count ==> verdict(
                setting,
                mode,
                #[trigger] files[i],
                disk_after(setting, Mode::Add, files.take(count), disk)[files[i]],
            ) == Ok::<VerdictView, Fault>(VerdictView::Nothing),
    decreases count,
{
    if count > 0 {
        let at = count - 1;
        let file = files[at];
        let done = files.take(at);
        let more = files.take(count);
        assert(more.drop_last() == done);
        assert(more.last() == file);
        added_so_far(setting, files, disk, mode, at);
        let before = disk_after(setting, Mode::Add, done, disk);
        let now = disk_after(setting, Mode::Add, more, disk);
        assert(verdict_in_turn(setting, Mode::Add, files, disk, at) is Ok);
        verdict_after_adding(setting, file, before[file], mode);
        assert forall|i: int| 0 <= i < count implies verdict(
            setting,
            mode,
            #[trigger] files[i],
            now[files[i]],
        ) == Ok::<VerdictView, Fault>(VerdictView::Nothing) by {
            if files[i] != file {
                assert(now[files[i]] == before[files[i]]);
            }
        }
    }
}

/// After a run that adds the license and succeeds, a run that checks the same
/// files finds it in each, and a second run that adds changes no file. A file
/// may be named more than once. (Without markers in use; and no license ends
/// with a carriage return that becomes part of a line ending, where trailing
/// white space counts.)
pub proof fn after_adding_every_license_is_found(
    adding: RunView,
    again: RunView,
    setting: Setting,
    files: Seq<FilePathView>,
    disk: Map<FilePathView, Seq<char>>,
    steps: nat,
)
    requires
        adding.mode == Mode::Add,
        again.mode != Mode::Remove,
        adding.eol == setting.eol,
        again.eol == setting.eol,
        setting.config.regex is None,
        forall|i: int|
            0 <= i < files.len() ==> !(setting.config.trim_trailing_whitespace && joins_the_ending(
                license_for(setting, file_key(#[trigger] files[i])),
                setting.eol,
            )),
        steps > 3 * files.len(),
        served(
            adding.turning(first_work(setting.config, files)),
            setting.named,
            disk,
            steps,
        ).0.stage matches StageView::Done(Ok(_)),
    ensures
        ({
            let work = first_work(setting.config, files);
            let first = served(adding.turning(work), setting.named, disk, steps);
            let second = served(again.turning(work), setting.named, first.1, steps);
            second == (again.ended(Ok(empty_report())), first.1)
        }),
{
    let count = files.len() as int;
    a_run_that_succeeds_finds_no_fault(adding, setting, files, disk, steps, count);
    a_run_does_what_is_decided(adding, setting, files, disk, steps);
    let filled = disk_after(setting, Mode::Add, files, disk);
    assert(files.take(count) == files);
    added_so_far(setting, files, disk, again.mode, count);
    nothing_to_do(setting, again.mode, files, filled);
    a_run_does_what_is_decided(again, setting, files, filled, steps);
}

/// Whether adding the license to a file and removing it again gives back the
/// file: the license is added, does not end with a carriage return that
/// becomes part of a line ending where trailing white space counts, can be
/// searched for, and what stays above it is told apart from it; and the file
/// is written with the line ending in use.
pub open spec fn restorable(setting: Setting, file: FilePathView, contents: Seq<char>) -> bool {
    let license = license_for(setting, file_key(file));
    let trim = setting.config.trim_trailing_whitespace;
    &&& verdict(setting, Mode::Add, file, contents) matches Ok(VerdictView::Write(written))
    &&& !(trim && joins_the_ending(license, setting.eol))
    &&& searchable(license, trim)
    &&& !passes_for_license(contents, written, license, trim)
    &&& written_with(contents, setting.eol)
    &&& parts_at_a_line_feed(contents)
}

/// Where the license is added, it is removed from what was written, and there
/// is none to remove before.
proof fn verdict_of_removing(
    setting: Setting,
    file: FilePathView,
    contents: Seq<char>,
    written: Seq<char>,
)
    requires
        setting.config.regex is None,
        restorable(setting, file, contents),
        verdict(setting, Mode::Add, file, contents) == Ok::<VerdictView, Fault>(
            VerdictView::Write(written),
        ),
    ensures
        verdict(setting, Mode::Remove, file, written) == Ok::<VerdictView, Fault>(
            VerdictView::Write(contents),
        ),
        verdict(setting, Mode::Remove, file, contents) == Ok::<VerdictView, Fault>(
            VerdictView::Nothing,
        ),
{
    reveal(verdict);
    let license = license_for(setting, file_key(file));
    added_and_removed_is_unchanged(setting.config, setting.eol, contents, license, written);
}

/// The text of a file with the license added.
spec fn with_license(
    setting: Setting,
    disk: Map<FilePathView, Seq<char>>,
    file: FilePathView,
) -> Seq<char> {
    verdict(setting, Mode::Add, file, disk[file])->Ok_0->Write_0
}

/// When the license was added to the first files, those hold it, and the
/// others are as they were.
proof fn filled_so_far(
    setting: Setting,
    files: Seq<FilePathView>,
    disk: Map<FilePathView, Seq<char>>,
    count: int,
)
    requires
        0 <= count <= files.len(),
        setting.config.regex is None,
        forall|i: int|
            0 <= i < files.len() ==> restorable(setting, #[trigger] files[i], disk[files[i]]),
    ensures
        decides_each(setting, Mode::Add, files, disk, count),
        forall|path: FilePathView| #[trigger]
            disk_after(setting, Mode::Add, files.take(count), disk)[path] == if files.take(
                count,
            ).contains(path) {
                with_license(setting, disk, path)
            } else {
                disk[path]
            },
    decreases count,
{
    if count > 0 {
        let at = count - 1;
        let file = files[at];
        let done = files.take(at);
        let more = files.take(count);
        assert(more.drop_last() == done);
        assert(more.last() == file);
        assert(more[at] == file);
        filled_so_far(setting, files, disk, at);
        let before = disk_after(setting, Mode::Add, done, disk);
        let now = disk_after(setting, Mode::Add, more, disk);
        assert(restorable(setting, files[at], disk[files[at]]));
        verdict_after_adding(setting, file, disk[file], Mode::Add);
        assert(verdict_in_turn(setting, Mode::Add, files, disk, at) is Ok);
        assert(now[file] == with_license(setting, disk, file));
        assert forall|path: FilePathView| #[trigger] now[path] == if more.contains(path) {
            with_license(setting, disk, path)
        } else {
            disk[path]
        } by {
            one_more_holds(done, file, path);
            assert(more == done.push(file));
            if path != file {
                assert(now[path] == before[path]);
            }
        }
    } else {
        assert(files.take(0) == Seq::<FilePathView>::empty());
    }
}

/// A list with one more file holds that file and what it held.
proof fn one_more_holds(done: Seq<FilePathView>, file: FilePathView, path: FilePathView)
    ensures
        done.push(file).contains(path) == (done.contains(path) || path == file),
{
    let more = done.push(file);
    if done.contains(path) {
        let i = choose|i: int| 0 <= i < done.len() && done[i] == path;
        assert(more[i] == path);
    }
    if more.contains(path) {
        let i = choose|i: int| 0 <= i < more.len() && more[i] == path;
        if i < done.len() {
            assert(done[i] == path);
        }
    }
    assert(more[done.len() as int] == file);
}

/// When the license was removed from the first files, those are as they were
/// before it was added, and the others still hold it.
proof fn emptied_so_far(
    setting: Setting,
    files: Seq<FilePathView>,
    disk: Map<FilePathView, Seq<char>>,
    filled: Map<FilePathView, Seq<char>>,
    count: int,
)
    requires
        0 <= count <= files.len(),
        setting.config.regex is None,
        forall|i: int|
            0 <= i < files.len() ==> restorable(setting, #[trigger] files[i], disk[files[i]]),
        forall|i: int|
            0 <= i < files.len() ==> filled[#[trigger] files[i]] == with_license(
                setting,
                disk,
                files[i],
            ),
    ensures
        decides_each(setting, Mode::Remove, files, filled, count),
        forall|path: FilePathView| #[trigger]
            disk_after(setting, Mode::Remove, files.take(count), filled)[path] == if files.take(
                count,
            ).contains(path) {
                disk[path]
            } else {
                filled[path]
            },
    decreases count,
{
    if count > 0 {
        let at = count - 1;
        let file = files[at];
        let done = files.take(at);
        let more = files.take(count);
        assert(more.drop_last() == done);
        assert(more.last() == file);
        emptied_so_far(setting, files, disk, filled, at);
        let before = disk_after(setting, Mode::Remove, done, filled);
        let now = disk_after(setting, Mode::Remove, more, filled);
        assert(restorable(setting, files[at], disk[files[at]]));
        assert(filled[files[at]] == with_license(setting, disk, file));
        verdict_of_removing(setting, file, disk[file], with_license(setting, disk, file));
        assert(verdict_in_turn(setting, Mode::Remove, files, filled, at) is Ok);
        assert(now[file] == disk[file]);
        assert forall|path: FilePathView| #[trigger] now[path] == if more.contains(path) {
            disk[path]
        } else {
            filled[path]
        } by {
            one_more_holds(done, file, path);
            assert(more == done.push(file));
            if path != file {
                assert(now[path] == before[path]);
            }
        }
    } else {
        assert(files.take(0) == Seq::<FilePathView>::empty());
    }
}

/// A run that adds the license to every file, and then one that removes it,
/// leave every file as it was. A file may be named more than once. (Without
/// markers in use.)
pub proof fn removing_undoes_adding(
    adding: RunView,
    removing: RunView,
    setting: Setting,
    files: Seq<FilePathView>,
    disk: Map<FilePathView, Seq<char>>,
    steps: nat,
)
    requires
        adding.mode == Mode::Add,
        removing.mode == Mode::Remove,
        adding.eol == setting.eol,
        removing.eol == setting.eol,
        setting.config.regex is None,
        forall|i: int|
            0 <= i < files.len() ==> restorable(setting, #[trigger] files[i], disk[files[i]]),
        steps > 3 * files.len(),
    ensures
        ({
            let work = first_work(setting.config, files);
            let first = served(adding.turning(work), setting.named, disk, steps);
            let second = served(removing.turning(work), setting.named, first.1, steps);
            &&& first.0.stage is Done
            &&& second.0.stage is Done
            &&& forall|path: FilePathView| #[trigger] second.1[path] == disk[path]
        }),
{
    let count = files.len() as int;
    assert(files.take(count) == files);
    let filled = disk_after(setting, Mode::Add, files, disk);
    filled_so_far(setting, files, disk, count);
    a_run_does_what_is_decided(adding, setting, files, disk, steps);
    assert forall|i: int| 0 <= i < files.len() implies filled[#[trigger] files[i]] == with_license(
        setting,
        disk,
        files[i],
    ) by {
        assert(files.contains(files[i]));
    }
    emptied_so_far(setting, files, disk, filled, count);
    a_run_does_what_is_decided(removing, setting, files, filled, steps);
}

// ---- The beginning and the end of a run ----

/// A run first asks for its configuration, then for the license that the
/// configuration names, then for the ignore file where it names one, and then
/// walks: by the rules of the configuration and of the ignore file, past the
/// ignore file, with the license that was read.
pub proof fn how_a_run_begins(
    run: RunView,
    path: Seq<char>,
    replacements: Option<Seq<Seq<char>>>,
    input: InputView,
    license_path: Seq<char>,
    license: Seq<char>,
    ignore_text: Seq<char>,
    ignore_path: FilePathView,
)
    requires
        run.stage == (StageView::Start { path, replacements }),
        config_fault(input, run.mode, replacements) is None,
        input.license == Some(license_path),
    ensures
        ({
            let config = ConfigView { license, ..loaded(input, replacements) };
            let first = run.next(EventView::Config(input));
            let second = first.next(EventView::Text(license));
            let third = second.next(EventView::IgnoreFile(ignore_text, ignore_path));
            &&& run.request() == RequestView::ReadConfig(path)
            &&& first.request() == RequestView::ReadLicense(license_path)
            &&& match input.ignore_file {
                None => second == run.at(
                    StageView::Walk {
                        config,
                        rules: all_rules(config, None),
                        ignore_file: None,
                        files: Seq::empty(),
                    },
                ),
                Some(named) => {
                    &&& second.request() == RequestView::ReadIgnoreFile(named)
                    &&& third == run.at(
                        StageView::Walk {
                            config,
                            rules: all_rules(config, Some(ignore_text)),
                            ignore_file: Some(relative_path(ignore_path)),
                            files: Seq::empty(),
                        },
                    )
                },
            }
        }),
{
}

/// A configuration with a fault ends the run with it.
pub proof fn a_refused_configuration_ends_the_run(
    run: RunView,
    path: Seq<char>,
    replacements: Option<Seq<Seq<char>>>,
    input: InputView,
    fault: Fault,
)
    requires
        run.stage == (StageView::Start { path, replacements }),
        config_fault(input, run.mode, replacements) == Some(fault),
    ensures
        run.next(EventView::Config(input)) == run.ended(Err(fault)),
{
}

/// When no file is left, the list of the mode is written to the file for it,
/// one path on each line, where the configuration names one, and the run is
/// over.
pub proof fn how_a_run_ends(run: RunView, work: WorkView, list: Seq<Seq<char>>)
    requires
        work.next == work.files.len(),
        list == match run.mode {
            Mode::Add => work.report.inserted,
            Mode::Check => work.report.missing,
            Mode::Remove => work.report.removed,
        },
    ensures
        match work.config.output {
            Some(path) => {
                &&& run.turning(work).request() == RequestView::WriteOutput(
                    path,
                    joined(list, run.eol.chars()),
                )
                &&& run.turning(work).next(EventView::Written) == run.ended(
                    closed(work.report, run.mode),
                )
            },
            None => run.turning(work) == run.ended(closed(work.report, run.mode)),
        },
{
}

/// When the walk is over, the files that were found are worked on from the
/// first on, with nothing reported yet; without any, the run is at its end.
pub proof fn how_work_begins(
    run: RunView,
    config: ConfigView,
    rules: Seq<RuleView>,
    ignore_file: Option<Seq<char>>,
    files: Seq<FilePathView>,
)
    requires
        run.stage == (StageView::Walk { config, rules, ignore_file, files }),
    ensures
        ({
            let work = WorkView {
                config,
                cache: Map::empty(),
                report: ReportView {
                    inserted: Seq::empty(),
                    missing: Seq::empty(),
                    removed: Seq::empty(),
                },
                files,
                next: 0,
            };
            &&& run.request() == RequestView::NextEntry
            &&& files.len() > 0 ==> run.next(EventView::WalkEnded) == run.at(
                StageView::File(work),
            ) && run.next(EventView::WalkEnded).request() == RequestView::ReadFile(files[0])
            &&& files.len() == 0 && config.output is None ==> run.next(EventView::WalkEnded)
                == run.ended(Ok(work.report))
        }),
{
}

} // verus!
