use har_bench::capture::CaptureError;
use har_bench::document::JsonError;
use har_bench::driver::{capture_files, is_rule_file, rule_file_name, Action, Phase, RunDriver, RunError};
use har_bench::rules::ConfigError;

const RULES: &str = r#"[{"name": "api", "regex": "^/api/"}, {"name": "static", "nregex": "^/api/"}]"#;
const FIRST: &str = r#"{"log": {"entries": [
    {"request": {"url": "http://h/api/users"}},
    {"request": {"url": "http://h/index.html"}},
    {"request": {"url": "http://h/api/orders"}}
]}}"#;
const SECOND: &str = r#"{"log": {"entries": [{"request": {"url": "http://h/logo.png"}}]}}"#;

fn strings(items: &[&str]) -> Vec<String> {
    items.iter().map(|s| s.to_string()).collect()
}

#[test]
fn rule_file_has_a_fixed_name() {
    assert_eq!(rule_file_name(), "categories.json");
    assert!(is_rule_file("categories.json"));
    assert!(!is_rule_file("categories.json.bak"));
    assert!(!is_rule_file("Categories.json"));
    assert!(!is_rule_file("categories"));
    assert!(!is_rule_file(""));
    assert!(!is_rule_file("session.har"));
}

#[test]
fn rule_file_is_never_a_capture() {
    let names = strings(&["b.har", "categories.json", "a.har", "notes.txt", "categories.json"]);
    assert_eq!(capture_files(&names), strings(&["b.har", "a.har", "notes.txt"]));
    assert_eq!(capture_files(&strings(&["categories.json"])), Vec::<String>::new());
    assert_eq!(capture_files(&Vec::new()), Vec::<String>::new());
}

#[test]
fn every_other_file_is_a_capture_whatever_its_name() {
    let names = strings(&["readme", "x.json", "categories.json.old", ".hidden"]);
    assert_eq!(capture_files(&names), names);
}

#[test]
fn run_goes_through_every_capture_and_ends_well() {
    let (mut run, action) = RunDriver::start();
    assert_eq!(action, Action::ReadRuleFile);
    assert_eq!(run.phase(), Phase::Idle);

    assert_eq!(run.rule_file_read(Some(RULES)), Action::ListDirectory);
    assert_eq!(run.phase(), Phase::RulesLoaded);
    assert_eq!(run.rules().len(), 2);

    let names = strings(&["one.har", "categories.json", "two.har"]);
    assert_eq!(run.directory_listed(Some(&names)), Action::ReadCapture { capture: 0 });
    assert_eq!(run.phase(), Phase::PerFile);
    assert_eq!(run.capture_name(0), Some("one.har"));
    assert_eq!(run.capture_name(1), Some("two.har"));
    assert_eq!(run.capture_name(2), None);

    assert_eq!(run.capture_read(Some(FIRST)), Action::ReadCapture { capture: 1 });
    assert_eq!(run.phase(), Phase::PerFile);
    assert_eq!(run.workloads().len(), 1);

    assert_eq!(run.capture_read(Some(SECOND)), Action::Execute);
    assert_eq!(run.phase(), Phase::Executing);

    let workloads = run.workloads();
    assert_eq!(workloads.len(), 2);
    assert_eq!(workloads[0].source_name, "one.har");
    assert_eq!(workloads[0].buckets[0].rule_name, "api");
    assert_eq!(workloads[0].buckets[0].paths, strings(&["/api/users", "/api/orders"]));
    assert_eq!(workloads[0].buckets[1].rule_name, "static");
    assert_eq!(workloads[0].buckets[1].paths, strings(&["/index.html"]));
    assert_eq!(workloads[1].source_name, "two.har");
    assert!(workloads[1].buckets[0].paths.is_empty());
    assert_eq!(workloads[1].buckets[1].paths, strings(&["/logo.png"]));
    assert_eq!(run.skipped(0), Some(&Vec::new()));
    assert_eq!(run.skipped(1), Some(&Vec::new()));
    assert_eq!(run.skipped(2), None);

    assert_eq!(run.engine_ended(true), Action::Stop);
    assert_eq!(run.phase(), Phase::Done);
    assert_eq!(run.failure(), None);
}

#[test]
fn run_lists_the_paths_it_left_out() {
    let (mut run, _) = RunDriver::start();
    run.rule_file_read(Some(r#"[{"name": "api", "regex": "^/api/"}]"#));
    run.directory_listed(Some(&strings(&["one.har"])));
    assert_eq!(run.capture_read(Some(FIRST)), Action::Execute);
    assert_eq!(run.skipped(0), Some(&strings(&["/index.html"])));
    assert_eq!(run.workloads()[0].buckets[0].paths, strings(&["/api/users", "/api/orders"]));
}

#[test]
fn run_without_captures_goes_straight_to_the_engine() {
    let (mut run, _) = RunDriver::start();
    run.rule_file_read(Some(RULES));
    assert_eq!(run.directory_listed(Some(&strings(&["categories.json"]))), Action::Execute);
    assert_eq!(run.phase(), Phase::Executing);
    assert!(run.workloads().is_empty());
    assert_eq!(run.capture_name(0), None);
    assert_eq!(run.engine_ended(true), Action::Stop);
    assert_eq!(run.phase(), Phase::Done);
}

#[test]
fn malformed_pattern_ends_the_run_before_any_capture_is_read() {
    let (mut run, _) = RunDriver::start();
    let action = run.rule_file_read(Some(r#"[{"name": "api", "regex": "^/api/("}]"#));
    assert_eq!(action, Action::Stop);
    assert_eq!(run.phase(), Phase::Failed);
    assert_eq!(
        run.failure(),
        Some(RunError::Rules(ConfigError::InvalidPattern { rule: 0 }))
    );
    // Whatever is reported now, no capture is asked for and none is taken.
    assert_eq!(run.directory_listed(Some(&strings(&["one.har"]))), Action::Stop);
    assert_eq!(run.capture_read(Some(FIRST)), Action::Stop);
    assert_eq!(run.engine_ended(true), Action::Stop);
    assert_eq!(run.phase(), Phase::Failed);
    assert_eq!(run.capture_name(0), None);
    assert!(run.workloads().is_empty());
    assert_eq!(
        run.failure(),
        Some(RunError::Rules(ConfigError::InvalidPattern { rule: 0 }))
    );
}

#[test]
fn unreadable_rule_file_ends_the_run() {
    let (mut run, _) = RunDriver::start();
    assert_eq!(run.rule_file_read(None), Action::Stop);
    assert_eq!(run.phase(), Phase::Failed);
    assert_eq!(run.failure(), Some(RunError::RuleFileUnreadable));
}

#[test]
fn rule_file_that_is_not_json_ends_the_run() {
    let (mut run, _) = RunDriver::start();
    assert_eq!(run.rule_file_read(Some("not json")), Action::Stop);
    assert_eq!(run.failure(), Some(RunError::Rules(ConfigError::Json(JsonError::Malformed))));
    let (mut run, _) = RunDriver::start();
    assert_eq!(run.rule_file_read(Some(r#"[{"regex": "a"}]"#)), Action::Stop);
    assert_eq!(run.failure(), Some(RunError::Rules(ConfigError::MissingName { rule: 0 })));
}

#[test]
fn unlistable_directory_ends_the_run() {
    let (mut run, _) = RunDriver::start();
    run.rule_file_read(Some(RULES));
    assert_eq!(run.directory_listed(None), Action::Stop);
    assert_eq!(run.phase(), Phase::Failed);
    assert_eq!(run.failure(), Some(RunError::DirectoryUnreadable));
}

#[test]
fn unreadable_capture_ends_the_run() {
    let (mut run, _) = RunDriver::start();
    run.rule_file_read(Some(RULES));
    run.directory_listed(Some(&strings(&["one.har", "two.har"])));
    run.capture_read(Some(FIRST));
    assert_eq!(run.capture_read(None), Action::Stop);
    assert_eq!(run.phase(), Phase::Failed);
    assert_eq!(run.failure(), Some(RunError::CaptureUnreadable { capture: 1 }));
}

#[test]
fn refused_capture_ends_the_whole_run() {
    let (mut run, _) = RunDriver::start();
    run.rule_file_read(Some(RULES));
    run.directory_listed(Some(&strings(&["one.har", "two.har", "three.har"])));
    assert_eq!(run.capture_read(Some(FIRST)), Action::ReadCapture { capture: 1 });
    assert_eq!(run.capture_read(Some("{}")), Action::Stop);
    assert_eq!(run.phase(), Phase::Failed);
    assert_eq!(
        run.failure(),
        Some(RunError::Capture { capture: 1, error: CaptureError::MissingEntries })
    );
    assert_eq!(run.capture_name(1), Some("two.har"));
    assert_eq!(run.capture_read(Some(SECOND)), Action::Stop);
    assert_eq!(run.workloads().len(), 1);
}

#[test]
fn capture_errors_are_passed_on() {
    let (mut run, _) = RunDriver::start();
    run.rule_file_read(Some(RULES));
    run.directory_listed(Some(&strings(&["one.har"])));
    assert_eq!(
        run.capture_read(Some(r#"{"log": {"entries": [{"request": {"url": "/relative"}}]}}"#)),
        Action::Stop
    );
    assert_eq!(
        run.failure(),
        Some(RunError::Capture { capture: 0, error: CaptureError::InvalidUrl { entry: 0 } })
    );
}

#[test]
fn engine_failure_fails_the_run() {
    let (mut run, _) = RunDriver::start();
    run.rule_file_read(Some(RULES));
    run.directory_listed(Some(&Vec::new()));
    assert_eq!(run.engine_ended(false), Action::Stop);
    assert_eq!(run.phase(), Phase::Failed);
    assert_eq!(run.failure(), Some(RunError::Engine));
}

#[test]
fn report_out_of_turn_fails_a_run_in_progress() {
    let (mut run, _) = RunDriver::start();
    assert_eq!(run.capture_read(Some(FIRST)), Action::Stop);
    assert_eq!(run.phase(), Phase::Failed);
    assert_eq!(run.failure(), Some(RunError::OutOfTurn));

    let (mut run, _) = RunDriver::start();
    assert_eq!(run.directory_listed(Some(&strings(&["one.har"]))), Action::Stop);
    assert_eq!(run.failure(), Some(RunError::OutOfTurn));

    let (mut run, _) = RunDriver::start();
    run.rule_file_read(Some(RULES));
    assert_eq!(run.rule_file_read(Some(RULES)), Action::Stop);
    assert_eq!(run.failure(), Some(RunError::OutOfTurn));

    let (mut run, _) = RunDriver::start();
    run.rule_file_read(Some(RULES));
    assert_eq!(run.engine_ended(true), Action::Stop);
    assert_eq!(run.failure(), Some(RunError::OutOfTurn));
}

#[test]
fn finished_run_stays_finished() {
    let (mut run, _) = RunDriver::start();
    run.rule_file_read(Some(RULES));
    run.directory_listed(Some(&strings(&["one.har"])));
    run.capture_read(Some(FIRST));
    run.engine_ended(true);
    assert_eq!(run.rule_file_read(Some(RULES)), Action::Stop);
    assert_eq!(run.capture_read(Some(FIRST)), Action::Stop);
    assert_eq!(run.engine_ended(false), Action::Stop);
    assert_eq!(run.phase(), Phase::Done);
    assert_eq!(run.failure(), None);
    assert_eq!(run.workloads().len(), 1);
}

#[test]
fn fraction_that_is_too_long_ends_the_run() {
    let long = format!("[0.{}]", "0".repeat(32769));
    let (mut run, _) = RunDriver::start();
    assert_eq!(run.rule_file_read(Some(&long)), Action::Stop);
    assert_eq!(run.phase(), Phase::Failed);
    assert_eq!(
        run.failure(),
        Some(RunError::Rules(ConfigError::Json(JsonError::LongFraction)))
    );

    let (mut run, _) = RunDriver::start();
    run.rule_file_read(Some(RULES));
    run.directory_listed(Some(&strings(&["one.har"])));
    assert_eq!(run.capture_read(Some(&long)), Action::Stop);
    assert_eq!(
        run.failure(),
        Some(RunError::Capture { capture: 0, error: CaptureError::Json(JsonError::LongFraction) })
    );

    let (mut run, _) = RunDriver::start();
    run.rule_file_read(Some(RULES));
    run.directory_listed(Some(&strings(&["one.har"])));
    assert_eq!(run.capture_read(Some("{")), Action::Stop);
    assert_eq!(
        run.failure(),
        Some(RunError::Capture { capture: 0, error: CaptureError::Json(JsonError::Malformed) })
    );
}
