use runner::cases::pair_cases;
use runner::config::RunConfig;
use runner::errors::Error;
use runner::program::Program;
use runner::project::{
    BuildSession, CaseVerdict, Project, TemporaryArtifact, TestSession, combine_results,
    judge_case, plan_run,
};
use runner::text::outputs_match;

fn strings(names: &[&str]) -> Vec<String> {
    names.iter().map(|n| n.to_string()).collect()
}

#[test]
fn pairing_intersects_and_sorts() {
    let names = strings(&["b.in", "a.in", "c.in", "a.out", "b.out"]);
    let p = pair_cases(&names);
    assert_eq!(p.cases, strings(&["a", "b"]));
    assert_eq!(p.missing_out, strings(&["c"]));
    assert_eq!(p.missing_in, Vec::<String>::new());
    assert_eq!(p.unexpected, Vec::<String>::new());
}

#[test]
fn pairing_reports_orphans_and_unexpected_files() {
    let names = strings(&["notes.txt", "x.out", "y.in", "y.out"]);
    let p = pair_cases(&names);
    assert_eq!(p.cases, strings(&["y"]));
    assert_eq!(p.missing_out, Vec::<String>::new());
    assert_eq!(p.missing_in, strings(&["x"]));
    assert_eq!(p.unexpected, strings(&["notes.txt"]));
}

#[test]
fn pairing_of_empty_directory_is_empty() {
    let p = pair_cases(&Vec::new());
    assert!(p.cases.is_empty());
    assert!(p.missing_out.is_empty());
    assert!(p.missing_in.is_empty());
    assert!(p.unexpected.is_empty());
}

#[test]
fn trailing_newline_matches() {
    assert!(outputs_match("42\n", "42"));
}

#[test]
fn wrong_output_does_not_match() {
    assert!(!outputs_match("43", "42"));
}

#[test]
fn whitespace_on_both_sides_is_ignored() {
    assert!(outputs_match("  hello world\t\n", "hello world"));
    assert!(outputs_match(" \n ", ""));
    assert!(!outputs_match("hello  world", "hello world"));
}

#[test]
fn judge_case_verdicts() {
    assert_eq!(judge_case(true, "42\n", "", "42"), CaseVerdict::Passed);
    assert_eq!(judge_case(true, "43", "", "42"), CaseVerdict::WrongOutput);
    assert_eq!(
        judge_case(false, "42", "boom", "42"),
        CaseVerdict::ProcessFailed(String::from("boom"))
    );
}

#[test]
fn build_fails_fast_and_reports_the_failing_step() {
    let steps = vec![
        Program::new("one"),
        Program::new("two"),
        Program::new("three"),
    ];
    let mut session = BuildSession::start(steps);
    assert_eq!(session.current().unwrap(), &Program::new("one"));
    session.record(true, String::from("ok"));
    assert_eq!(session.current().unwrap(), &Program::new("two"));
    session.record(false, String::from("step two broke"));
    assert_eq!(session.current(), None);
    assert_eq!(
        session.outcome(),
        Err(Error::BuildStepFailed { step: 1, output: String::from("step two broke") })
    );
}

#[test]
fn build_of_all_good_steps_succeeds() {
    let mut session = BuildSession::start(vec![Program::new("one"), Program::new("two")]);
    while let Some(_) = session.current() {
        session.record(true, String::new());
    }
    assert_eq!(session.outcome(), Ok(()));
}

#[test]
fn tests_run_in_order_and_stop_at_the_first_failure() {
    let mut session = TestSession::start(strings(&["a", "b", "c"]));
    assert_eq!(session.current().unwrap().as_str(), "a");
    session.record(CaseVerdict::Passed);
    assert_eq!(session.current().unwrap().as_str(), "b");
    session.record(CaseVerdict::WrongOutput);
    assert_eq!(session.current(), None);
    assert_eq!(session.outcome(), Err(Error::TestCaseFailed { name: String::from("b") }));
}

#[test]
fn failing_process_surfaces_its_stderr() {
    let mut session = TestSession::start(strings(&["a"]));
    session.record(CaseVerdict::ProcessFailed(String::from("crashed")));
    assert_eq!(
        session.outcome(),
        Err(Error::TestProcessFailed { stderr: String::from("crashed") })
    );
}

#[test]
fn cleanup_success_reports_the_original_failure() {
    let artifact = TemporaryArtifact { path: String::from("target/tmp") };
    let r: Result<u32, Error> = TemporaryArtifact::defer_deletion(
        artifact,
        || Err(Error::TestCaseFailed { name: String::from("a") }),
        |_a| None,
    );
    assert_eq!(r, Err(Error::TestCaseFailed { name: String::from("a") }));
}

#[test]
fn cleanup_failure_after_success_surfaces_the_cleanup_error() {
    let artifact = TemporaryArtifact { path: String::from("target/tmp") };
    let r: Result<u32, Error> = TemporaryArtifact::defer_deletion(
        artifact,
        || Ok(5),
        |_a| Some(Error::Io(String::from("permission denied"))),
    );
    assert_eq!(r, Err(Error::Io(String::from("permission denied"))));
}

#[test]
fn cleanup_failure_after_failure_aggregates_both() {
    let action: Result<u32, Error> = Err(Error::TestCaseFailed { name: String::from("a") });
    let combined = combine_results(action, Some(Error::Io(String::from("denied"))));
    assert_eq!(
        combined,
        Err(Error::WithCleanup {
            primary: Box::new(Error::TestCaseFailed { name: String::from("a") }),
            cleanup: Box::new(Error::Io(String::from("denied"))),
        })
    );
}

#[test]
fn plan_rejects_more_than_one_clean_path() {
    let cfg = RunConfig {
        build: vec![],
        clean: strings(&["one", "two"]),
        test: None,
    };
    assert_eq!(plan_run(cfg), Err(Error::MultipleCleanPaths));
}

#[test]
fn plan_keeps_the_single_clean_path() {
    let cfg = RunConfig {
        build: vec![Program::new("make")],
        clean: strings(&["main"]),
        test: Some(Program::new("main")),
    };
    let plan = plan_run(cfg).unwrap();
    assert_eq!(plan.build, vec![Program::new("make")]);
    assert_eq!(plan.artifact, Some(String::from("main")));
    assert_eq!(plan.test, Some(Program::new("main")));
}

#[test]
fn plan_without_clean_paths_has_no_artifact() {
    let cfg = RunConfig { build: vec![], clean: vec![], test: None };
    let plan = plan_run(cfg).unwrap();
    assert_eq!(plan.artifact, None);
}

#[test]
fn program_builder_appends_arguments_in_order() {
    let p = Program::new("cmd")
        .with_args(vec![String::from("a")])
        .with_args(vec![String::from("b"), String::from("c")]);
    assert_eq!(p.cmd, "cmd");
    assert_eq!(p.args, strings(&["a", "b", "c"]));
}

#[test]
fn project_keeps_its_root() {
    let p = Project::at_root(String::from("some/dir"));
    assert_eq!(p.root, "some/dir");
}

#[test]
fn non_ascii_whitespace_is_trimmed_too() {
    assert!(outputs_match("\u{a0}42\u{2028}", "42"));
}

#[test]
fn repeated_names_yield_one_case() {
    let names = strings(&["a.in", "a.in", "a.out"]);
    let p = pair_cases(&names);
    assert_eq!(p.cases, strings(&["a"]));
}
