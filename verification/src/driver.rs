//! The course of one run.
//!
//! A run reads the rule file of a capture directory, then every other file of
//! the directory as a capture log, builds one workload per capture, and hands
//! the workloads to a load engine. Reading files and driving the engine is the
//! caller's work; what to do next, and when to give up, is decided here.
//!
//! The caller starts with [`RunDriver::start`], performs the [`Action`] it is
//! given, reports what came of it through the method that belongs to the
//! action, and goes on with the action that this returns, until it is told to
//! stop. Any failure ends the run at once.

use vstd::prelude::*;

use crate::capture::{read_capture, records_of_text, CaptureError};
use crate::rules::{parse_category, rule_views, rules_of_text, text_view, Category, CategoryRule, ConfigError};
use crate::workload::{
    lemma_filter_push,
    partition,
    skipped_of,
    text_views,
    workload_of,
    Workload,
    WorkloadView,
};

verus! {

/// The name of the rule file, as characters.
pub open spec fn rule_file() -> Seq<char> {
    "categories.json"@
}

/// The name of the rule file in a capture directory.
pub fn rule_file_name() -> (name: &'static str)
    ensures
        name@ == rule_file(),
{
    "categories.json"
}

/// Whether a file of the capture directory is the rule file.
pub fn is_rule_file(name: &str) -> (answer: bool)
    ensures
        answer == (name@ == rule_file()),
{
    name.to_owned() == rule_file_name().to_owned()
}

/// The capture logs among the files of a directory: every file but the rule
/// file, in the order of the listing.
pub open spec fn capture_names(names: Seq<Seq<char>>) -> Seq<Seq<char>> {
    names.filter(|name: Seq<char>| name != rule_file())
}

/// The rule file is never among the capture logs.
pub proof fn lemma_rule_file_is_no_capture(names: Seq<Seq<char>>)
    ensures
        !capture_names(names).contains(rule_file()),
        forall|i: int|
            0 <= i < capture_names(names).len() ==> #[trigger] capture_names(names)[i]
                != rule_file(),
{
    let keep = |name: Seq<char>| name != rule_file();
    assert forall|i: int| 0 <= i < capture_names(names).len() implies #[trigger] capture_names(
        names,
    )[i] != rule_file() by {
        names.lemma_filter_pred(keep, i);
    }
}

/// Every other file of the directory is a capture log, whatever its name.
pub proof fn lemma_other_files_are_captures(names: Seq<Seq<char>>, i: int)
    requires
        0 <= i < names.len(),
        names[i] != rule_file(),
    ensures
        capture_names(names).contains(names[i]),
{
    let keep = |name: Seq<char>| name != rule_file();
    names.lemma_filter_contains(keep, i);
}

/// Picks the capture logs among the files of a directory.
pub fn capture_files(names: &Vec<String>) -> (captures: Vec<String>)
    ensures
        text_views(captures@) == capture_names(text_views(names@)),
{
    let ghost all = text_views(names@);
    let mut captures: Vec<String> = Vec::new();
    proof {
        reveal(Seq::filter);
        assert(all.take(0) =~= Seq::empty());
        assert(text_views(captures@) =~= capture_names(all.take(0)));
    }
    let mut i: usize = 0;
    while i < names.len()
        invariant
            i <= names.len(),
            all == text_views(names@),
            text_views(captures@) == capture_names(all.take(i as int)),
        decreases names.len() - i,
    {
        proof {
            assert(all.take(i + 1) =~= all.take(i as int).push(names[i as int]@));
            lemma_filter_push(
                all.take(i as int),
                names[i as int]@,
                |name: Seq<char>| name != rule_file(),
            );
        }
        if !is_rule_file(names[i].as_str()) {
            let ghost before = text_views(captures@);
            captures.push(names[i].clone());
            assert(text_views(captures@) =~= before.push(names[i as int]@));
        }
        i += 1;
    }
    proof {
        assert(all.take(i as int) =~= all);
    }
    captures
}

/// Where a run stands.
#[derive(Clone, Copy, Debug, PartialEq, Eq, Structural)]
pub enum Phase {
    /// Nothing has been read yet.
    Idle,
    /// The rules are loaded; the directory has not been listed.
    RulesLoaded,
    /// The captures are being read, one after the other.
    PerFile,
    /// Every capture has its workload; the engine is at work.
    Executing,
    /// The engine has finished.
    Done,
    /// The run was given up.
    Failed,
}

/// Why a run was given up.
#[derive(Clone, Copy, Debug, PartialEq, Eq, Structural)]
pub enum RunError {
    /// The rule file could not be read.
    RuleFileUnreadable,
    /// The rule file was refused.
    Rules(ConfigError),
    /// The capture directory could not be listed.
    DirectoryUnreadable,
    /// The capture at this position could not be read.
    CaptureUnreadable { capture: usize },
    /// The capture at this position was refused.
    Capture { capture: usize, error: CaptureError },
    /// The engine reported a failure.
    Engine,
    /// Something was reported that the run was not waiting for.
    OutOfTurn,
}

/// What the caller is to do next.
#[derive(Clone, Copy, Debug, PartialEq, Eq, Structural)]
pub enum Action {
    /// Read the rule file and report its text.
    ReadRuleFile,
    /// List the files of the capture directory and report their names.
    ListDirectory,
    /// Read the capture at this position and report its text.
    ReadCapture { capture: usize },
    /// Hand the workloads to the engine, run it, and report how it ended.
    Execute,
    /// Stop: the run is done or has failed.
    Stop,
}

/// The state of a run, as mathematics.
pub struct DriverView {
    pub phase: Phase,
    /// The rules, once loaded.
    pub rules: Seq<CategoryRule>,
    /// The names of the captures, once listed.
    pub captures: Seq<Seq<char>>,
    /// The workloads built so far, one per capture read.
    pub workloads: Seq<WorkloadView>,
    /// The paths left out of each workload.
    pub skipped: Seq<Seq<Seq<char>>>,
    /// Why the run was given up, if it was.
    pub failure: Option<RunError>,
}

impl DriverView {
    /// A run that has not begun.
    pub open spec fn initial() -> DriverView {
        DriverView {
            phase: Phase::Idle,
            rules: Seq::empty(),
            captures: Seq::empty(),
            workloads: Seq::empty(),
            skipped: Seq::empty(),
            failure: None,
        }
    }

    /// The run is over: nothing more will be asked of the caller.
    pub open spec fn is_over(self) -> bool {
        self.phase == Phase::Done || self.phase == Phase::Failed
    }

    /// The same run, given up.
    pub open spec fn failed(self, error: RunError) -> DriverView {
        DriverView { phase: Phase::Failed, failure: Some(error), ..self }
    }

    /// What follows a report that the run was not waiting for: nothing, where
    /// the run is over; else the run is given up.
    pub open spec fn out_of_turn(self) -> (DriverView, Action) {
        if self.is_over() {
            (self, Action::Stop)
        } else {
            (self.failed(RunError::OutOfTurn), Action::Stop)
        }
    }

    /// The step taken when the text of the rule file is reported (or that it
    /// could not be read).
    pub open spec fn on_rule_file(self, text: Option<Seq<char>>) -> (DriverView, Action) {
        if self.phase != Phase::Idle {
            self.out_of_turn()
        } else {
            match text {
                None => (self.failed(RunError::RuleFileUnreadable), Action::Stop),
                Some(text) => match rules_of_text(text) {
                    Err(e) => (self.failed(RunError::Rules(e)), Action::Stop),
                    Ok(rules) => (
                        DriverView { phase: Phase::RulesLoaded, rules, ..self },
                        Action::ListDirectory,
                    ),
                },
            }
        }
    }

    /// The step taken when the files of the capture directory are reported
    /// (or that it could not be listed).
    pub open spec fn on_listing(self, names: Option<Seq<Seq<char>>>) -> (DriverView, Action) {
        if self.phase != Phase::RulesLoaded {
            self.out_of_turn()
        } else {
            match names {
                None => (self.failed(RunError::DirectoryUnreadable), Action::Stop),
                Some(names) => {
                    let captures = capture_names(names);
                    if captures.len() == 0 {
                        (DriverView { phase: Phase::Executing, captures, ..self }, Action::Execute)
                    } else {
                        (
                            DriverView { phase: Phase::PerFile, captures, ..self },
                            Action::ReadCapture { capture: 0 },
                        )
                    }
                },
            }
        }
    }

    /// The step taken when the text of the capture that was asked for is
    /// reported (or that it could not be read).
    pub open spec fn on_capture(self, text: Option<Seq<char>>) -> (DriverView, Action) {
        let current = self.workloads.len();
        if self.phase != Phase::PerFile || current >= self.captures.len() {
            self.out_of_turn()
        } else {
            match text {
                None => (
                    self.failed(RunError::CaptureUnreadable { capture: current as usize }),
                    Action::Stop,
                ),
                Some(text) => match records_of_text(text) {
                    Err(e) => (
                        self.failed(RunError::Capture { capture: current as usize, error: e }),
                        Action::Stop,
                    ),
                    Ok(paths) => {
                        let workloads = self.workloads.push(
                            workload_of(self.captures[current as int], self.rules, paths),
                        );
                        let skipped = self.skipped.push(skipped_of(self.rules, paths));
                        if current + 1 < self.captures.len() {
                            (
                                DriverView { workloads, skipped, ..self },
                                Action::ReadCapture { capture: (current + 1) as usize },
                            )
                        } else {
                            (
                                DriverView { phase: Phase::Executing, workloads, skipped, ..self },
                                Action::Execute,
                            )
                        }
                    },
                },
            }
        }
    }

    /// The step taken when the engine reports how it ended.
    pub open spec fn on_engine_end(self, succeeded: bool) -> (DriverView, Action) {
        if self.phase != Phase::Executing {
            self.out_of_turn()
        } else if succeeded {
            (DriverView { phase: Phase::Done, ..self }, Action::Stop)
        } else {
            (self.failed(RunError::Engine), Action::Stop)
        }
    }

    /// What holds of every state that a run passes through.
    pub open spec fn sound(self) -> bool {
        &&& self.failure is Some <==> self.phase == Phase::Failed
        &&& self.workloads.len() <= self.captures.len()
        &&& self.skipped.len() == self.workloads.len()
        &&& forall|i: int| 0 <= i < self.captures.len() ==> #[trigger] self.captures[i] != rule_file()
        &&& forall|i: int|
            0 <= i < self.workloads.len() ==> {
                &&& (#[trigger] self.workloads[i]).source_name == self.captures[i]
                &&& self.workloads[i].buckets.len() == self.rules.len()
            }
        &&& self.phase == Phase::Idle ==> self.rules.len() == 0
        &&& (self.phase == Phase::Idle || self.phase == Phase::RulesLoaded)
            ==> self.captures.len() == 0
        &&& self.phase == Phase::PerFile ==> self.workloads.len() < self.captures.len()
        &&& (self.phase == Phase::Executing || self.phase == Phase::Done)
            ==> self.workloads.len() == self.captures.len()
    }
}

/// What a caller may report to a run.
pub enum Report {
    /// The text of the rule file, or nothing where it could not be read.
    RuleFile(Option<Seq<char>>),
    /// The names of the files of the capture directory, or nothing where it
    /// could not be listed.
    Listing(Option<Seq<Seq<char>>>),
    /// The text of the capture asked for, or nothing where it could not be
    /// read.
    Capture(Option<Seq<char>>),
    /// Whether the engine ended well.
    EngineEnd(bool),
}

impl DriverView {
    /// The step taken on a report.
    pub open spec fn step(self, report: Report) -> (DriverView, Action) {
        match report {
            Report::RuleFile(text) => self.on_rule_file(text),
            Report::Listing(names) => self.on_listing(names),
            Report::Capture(text) => self.on_capture(text),
            Report::EngineEnd(succeeded) => self.on_engine_end(succeeded),
        }
    }

    /// The state after a series of reports.
    pub open spec fn after(self, reports: Seq<Report>) -> DriverView
        decreases reports.len(),
    {
        if reports.len() == 0 {
            self
        } else {
            self.after(reports.drop_last()).step(reports.last()).0
        }
    }
}

/// Every step keeps a sound state sound.
pub proof fn lemma_step_keeps_sound(state: DriverView, report: Report)
    requires
        state.sound(),
    ensures
        state.step(report).0.sound(),
{
    match report {
        Report::Listing(Some(names)) => {
            lemma_rule_file_is_no_capture(names);
        },
        _ => {},
    }
}

/// Every state that a run passes through is sound. In particular the rule
/// file is never among the captures, each workload belongs to the capture
/// at its position, and each has one bucket per rule.
pub proof fn lemma_run_is_sound(reports: Seq<Report>)
    ensures
        DriverView::initial().after(reports).sound(),
    decreases reports.len(),
{
    if reports.len() > 0 {
        lemma_run_is_sound(reports.drop_last());
        lemma_step_keeps_sound(DriverView::initial().after(reports.drop_last()), reports.last());
    }
}

/// A run that is over stays as it is, and asks for nothing more.
pub proof fn lemma_over_is_final(state: DriverView, report: Report)
    requires
        state.is_over(),
    ensures
        state.step(report) == (state, Action::Stop),
{
}

/// A rule file that is refused ends the run on the spot.
pub proof fn lemma_refused_rules_end_run(state: DriverView, text: Seq<char>)
    requires
        state.phase == Phase::Idle,
        rules_of_text(text) is Err,
    ensures
        state.on_rule_file(Some(text)) == (
            state.failed(RunError::Rules(rules_of_text(text)->Err_0)),
            Action::Stop,
        ),
        state.on_rule_file(Some(text)).0.is_over(),
{
}

/// A capture is asked for only once the rules are loaded: the step that
/// asks for one starts from a state whose rules were accepted.
pub proof fn lemma_capture_needs_rules(state: DriverView, report: Report)
    requires
        state.step(report).1 is ReadCapture,
    ensures
        state.phase == Phase::RulesLoaded || state.phase == Phase::PerFile,
        state.step(report).0.phase == Phase::PerFile,
{
}

/// After a rule file was refused, whatever is reported, no capture is asked
/// for and no workload is built.
pub proof fn lemma_no_capture_after_refused_rules(text: Seq<char>, later: Seq<Report>)
    requires
        rules_of_text(text) is Err,
    ensures
        ({
            let refused = DriverView::initial().on_rule_file(Some(text)).0;
            &&& refused.after(later) == refused
            &&& refused.workloads.len() == 0
            &&& forall|report: Report| #[trigger] refused.after(later).step(report).1 == Action::Stop
        }),
    decreases later.len(),
{
    let refused = DriverView::initial().on_rule_file(Some(text)).0;
    if later.len() > 0 {
        lemma_no_capture_after_refused_rules(text, later.drop_last());
        lemma_over_is_final(refused, later.last());
    }
    assert forall|report: Report| #[trigger] refused.after(later).step(report).1 == Action::Stop by {
        lemma_over_is_final(refused, report);
    }
}

/// A run in progress.
#[derive(Debug)]
pub struct RunDriver {
    phase: Phase,
    rules: Vec<Category>,
    captures: Vec<String>,
    workloads: Vec<Workload>,
    skipped: Vec<Vec<String>>,
    failure: Option<RunError>,
}

impl View for RunDriver {
    type V = DriverView;

    closed spec fn view(&self) -> DriverView {
        DriverView {
            phase: self.phase,
            rules: rule_views(self.rules@),
            captures: text_views(self.captures@),
            workloads: self.workloads@.map_values(|workload: Workload| workload@),
            skipped: self.skipped@.map_values(|paths: Vec<String>| text_views(paths@)),
            failure: self.failure,
        }
    }
}

/// The names of a listing that may be absent.
pub open spec fn listing_view(names: Option<&Vec<String>>) -> Option<Seq<Seq<char>>> {
    match names {
        Some(names) => Some(text_views(names@)),
        None => None,
    }
}

impl RunDriver {
    /// Begins a run. The first thing to do is to read the rule file.
    pub fn start() -> (begun: (RunDriver, Action))
        ensures
            begun.0@ == DriverView::initial(),
            begun.1 == Action::ReadRuleFile,
    {
        let driver = RunDriver {
            phase: Phase::Idle,
            rules: Vec::new(),
            captures: Vec::new(),
            workloads: Vec::new(),
            skipped: Vec::new(),
            failure: None,
        };
        proof {
            let made = driver@;
            let initial = DriverView::initial();
            assert(made.rules =~= initial.rules);
            assert(made.captures =~= initial.captures);
            assert(made.workloads =~= initial.workloads);
            assert(made.skipped =~= initial.skipped);
        }
        (driver, Action::ReadRuleFile)
    }

    /// Gives the run up.
    fn give_up(&mut self, error: RunError) -> (action: Action)
        ensures
            final(self)@ == old(self)@.failed(error),
            action == Action::Stop,
    {
        self.phase = Phase::Failed;
        self.failure = Some(error);
        Action::Stop
    }

    /// Takes a report that the run was not waiting for.
    fn refuse(&mut self) -> (action: Action)
        ensures
            (final(self)@, action) == old(self)@.out_of_turn(),
    {
        match self.phase {
            Phase::Done | Phase::Failed => Action::Stop,
            _ => self.give_up(RunError::OutOfTurn),
        }
    }

    /// Takes the text of the rule file, or the news that it could not be
    /// read, and says what to do next.
    ///
    /// The rules are loaded from the text. Where that succeeds the directory
    /// is to be listed next; where it fails, or there is no text, the run is
    /// given up before any capture is read.
    pub fn rule_file_read(&mut self, text: Option<&str>) -> (action: Action)
        ensures
            (final(self)@, action) == old(self)@.on_rule_file(text_view(text)),
    {
        if self.phase != Phase::Idle {
            return self.refuse();
        }
        match text {
            None => self.give_up(RunError::RuleFileUnreadable),
            Some(text) => match parse_category(text) {
                Err(e) => self.give_up(RunError::Rules(e)),
                Ok(rules) => {
                    self.rules = rules;
                    self.phase = Phase::RulesLoaded;
                    Action::ListDirectory
                },
            },
        }
    }

    /// Takes the names of the files of the capture directory, or the news
    /// that it could not be listed, and says what to do next.
    ///
    /// Every file but the rule file is a capture. The first of them is to be
    /// read next; where there is none, the engine is to run at once.
    pub fn directory_listed(&mut self, names: Option<&Vec<String>>) -> (action: Action)
        ensures
            (final(self)@, action) == old(self)@.on_listing(listing_view(names)),
    {
        if self.phase != Phase::RulesLoaded {
            return self.refuse();
        }
        match names {
            None => self.give_up(RunError::DirectoryUnreadable),
            Some(names) => {
                self.captures = capture_files(names);
                if self.captures.len() == 0 {
                    self.phase = Phase::Executing;
                    Action::Execute
                } else {
                    self.phase = Phase::PerFile;
                    Action::ReadCapture { capture: 0 }
                }
            },
        }
    }

    /// Takes the text of the capture that was asked for, or the news that it
    /// could not be read, and says what to do next.
    ///
    /// The capture is read and its workload built. The next capture is to be
    /// read then, or the engine to run where this was the last. Where the
    /// capture is refused, or there is no text, the run is given up.
    pub fn capture_read(&mut self, text: Option<&str>) -> (action: Action)
        ensures
            (final(self)@, action) == old(self)@.on_capture(text_view(text)),
    {
        let current = self.workloads.len();
        if self.phase != Phase::PerFile || current >= self.captures.len() {
            return self.refuse();
        }
        let text = match text {
            Some(text) => text,
            None => {
                return self.give_up(RunError::CaptureUnreadable { capture: current });
            },
        };
        let records = match read_capture(text) {
            Ok(records) => records,
            Err(e) => {
                return self.give_up(RunError::Capture { capture: current, error: e });
            },
        };
        let (workload, skipped) = partition(self.captures[current].as_str(), &self.rules, &records);
        let ghost before = self@;
        self.workloads.push(workload);
        self.skipped.push(skipped);
        proof {
            assert(self@.workloads =~= before.workloads.push(workload@));
            assert(self@.skipped =~= before.skipped.push(text_views(skipped@)));
        }
        if current + 1 < self.captures.len() {
            Action::ReadCapture { capture: current + 1 }
        } else {
            self.phase = Phase::Executing;
            Action::Execute
        }
    }

    /// Takes the news of how the engine ended, and ends the run.
    pub fn engine_ended(&mut self, succeeded: bool) -> (action: Action)
        ensures
            (final(self)@, action) == old(self)@.on_engine_end(succeeded),
    {
        if self.phase != Phase::Executing {
            return self.refuse();
        }
        if succeeded {
            self.phase = Phase::Done;
            Action::Stop
        } else {
            self.give_up(RunError::Engine)
        }
    }

    /// Where the run stands.
    pub fn phase(&self) -> (phase: Phase)
        ensures
            phase == self@.phase,
    {
        self.phase
    }

    /// Why the run was given up, if it was.
    pub fn failure(&self) -> (failure: Option<RunError>)
        ensures
            failure == self@.failure,
    {
        self.failure
    }

    /// The rules, once loaded.
    pub fn rules(&self) -> (rules: &Vec<Category>)
        ensures
            rule_views(rules@) == self@.rules,
    {
        &self.rules
    }

    /// The name of the capture at `position`.
    pub fn capture_name(&self, position: usize) -> (name: Option<&str>)
        ensures
            match name {
                Some(name) => position < self@.captures.len() && name@
                    == self@.captures[position as int],
                None => position >= self@.captures.len(),
            },
    {
        if position < self.captures.len() {
            Some(self.captures[position].as_str())
        } else {
            None
        }
    }

    /// The workloads built so far, one per capture read, in the order of the
    /// captures.
    pub fn workloads(&self) -> (workloads: &Vec<Workload>)
        ensures
            workloads@.map_values(|workload: Workload| workload@) == self@.workloads,
    {
        &self.workloads
    }

    /// The paths left out of the workload at `position` because no rule
    /// takes them.
    pub fn skipped(&self, position: usize) -> (paths: Option<&Vec<String>>)
        ensures
            match paths {
                Some(paths) => position < self@.skipped.len() && text_views(paths@)
                    == self@.skipped[position as int],
                None => position >= self@.skipped.len(),
            },
    {
        if position < self.skipped.len() {
            Some(&self.skipped[position])
        } else {
            None
        }
    }
}

} // verus!
