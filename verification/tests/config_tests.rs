use std::collections::HashMap;

use runner::config::{AdventConfig, DayConfig, RunConfig};
use runner::doc::parse_document;
use runner::errors::Error;
use runner::program::Program;

fn parse_registry(s: &str) -> Result<AdventConfig, Error> {
    let doc = parse_document(s)?;
    AdventConfig::from_document(&doc)
}

fn parse_run(s: &str) -> Result<RunConfig, Error> {
    let doc = parse_document(s)?;
    RunConfig::from_document(&doc)
}

#[test]
fn parse_advent_config() {
    let s = r#"
    days {
        day 5 root="some/path"
        day 12 root="another/path"
    }
    "#;
    let config = parse_registry(s).unwrap();
    assert_eq!(
        config,
        AdventConfig {
            days: HashMap::from_iter([
                (5, DayConfig::new(String::from("some/path"))),
                (12, DayConfig::new(String::from("another/path"))),
            ]),
        }
    );
}

#[test]
fn parse_run_config() {
    let s = r#"
    build {
        run roc build main.roc
    }
    clean {
        delete main
    }
    test {
        run main
    }
    "#;
    let config = parse_run(s).unwrap();
    assert_eq!(
        config,
        RunConfig {
            build: vec![Program::new("roc").with_args(vec![
                String::from("build"),
                String::from("main.roc"),
            ])],
            clean: vec![String::from("main")],
            test: Some(Program::new("main")),
        }
    );
}

#[test]
fn registry_day_lookup() {
    let s = r#"
    days {
        day 5 root="some/path"
    }
    "#;
    let config = parse_registry(s).unwrap();
    assert_eq!(config.day(5), Some(&DayConfig::new(String::from("some/path"))));
    assert_eq!(config.day(7), None);
}

#[test]
fn registry_duplicate_day_last_wins() {
    let s = r#"
    days {
        day 5 root="first/path"
        day 5 root="second/path"
    }
    "#;
    let config = parse_registry(s).unwrap();
    assert_eq!(config.day(5), Some(&DayConfig::new(String::from("second/path"))));
}

#[test]
fn registry_without_days_node_fails() {
    let err = parse_registry("other { }").unwrap_err();
    assert_eq!(err, Error::MissingDaysNode);
}

#[test]
fn registry_days_without_children_fails() {
    let err = parse_registry("days").unwrap_err();
    assert_eq!(err, Error::DaysWithoutChildren);
}

#[test]
fn registry_day_without_root_fails() {
    let err = parse_registry("days {\n    day 5\n}").unwrap_err();
    assert_eq!(err, Error::DayMissingRoot);
}

#[test]
fn registry_root_not_string_fails() {
    let err = parse_registry("days {\n    day 5 root=7\n}").unwrap_err();
    assert_eq!(err, Error::DayRootNotString);
}

#[test]
fn registry_day_without_number_fails() {
    let err = parse_registry("days {\n    day root=\"p\"\n}").unwrap_err();
    assert_eq!(err, Error::DayMissingNumber);
}

#[test]
fn registry_day_number_not_integer_fails() {
    let err = parse_registry("days {\n    day \"five\" root=\"p\"\n}").unwrap_err();
    assert_eq!(err, Error::DayNumberNotInteger);
}

#[test]
fn registry_day_number_out_of_range_fails() {
    let err = parse_registry("days {\n    day 300 root=\"p\"\n}").unwrap_err();
    assert_eq!(err, Error::DayNumberOutOfRange(300));
}

#[test]
fn unknown_top_level_node_fails() {
    let err = parse_run("deploy {\n    run main\n}").unwrap_err();
    assert_eq!(err, Error::UnknownTopLevelNode(String::from("deploy")));
}

#[test]
fn unknown_child_in_build_fails() {
    let err = parse_run("build {\n    copy main\n}").unwrap_err();
    assert_eq!(err, Error::UnknownBuildChild(String::from("copy")));
}

#[test]
fn unknown_child_in_clean_fails() {
    let err = parse_run("clean {\n    run main\n}").unwrap_err();
    assert_eq!(err, Error::UnknownCleanChild(String::from("run")));
}

#[test]
fn unknown_child_in_test_fails() {
    let err = parse_run("test {\n    delete main\n}").unwrap_err();
    assert_eq!(err, Error::UnknownTestChild(String::from("delete")));
}

#[test]
fn delete_with_two_values_fails() {
    let err = parse_run("clean {\n    delete main extra\n}").unwrap_err();
    assert_eq!(err, Error::DeleteExtraParameters);
}

#[test]
fn delete_without_values_fails() {
    let err = parse_run("clean {\n    delete\n}").unwrap_err();
    assert_eq!(err, Error::DeleteMissingParameters);
}

#[test]
fn delete_with_integer_value_fails() {
    let err = parse_run("clean {\n    delete 7\n}").unwrap_err();
    assert_eq!(err, Error::DeletePathNotString);
}

#[test]
fn two_test_runs_fail() {
    let err = parse_run("test {\n    run main\n    run other\n}").unwrap_err();
    assert_eq!(err, Error::MultipleTestRuns);
}

#[test]
fn run_without_parameters_fails() {
    let err = parse_run("build {\n    run\n}").unwrap_err();
    assert_eq!(err, Error::RunMissingParameters);
}

#[test]
fn run_with_integer_argument_fails() {
    let err = parse_run("build {\n    run roc 42\n}").unwrap_err();
    assert_eq!(err, Error::RunArgumentNotString);
}

#[test]
fn build_steps_accumulate_across_blocks() {
    let s = r#"
    build {
        run first
    }
    build {
        run second arg
    }
    "#;
    let config = parse_run(s).unwrap();
    assert_eq!(
        config.build,
        vec![
            Program::new("first"),
            Program::new("second").with_args(vec![String::from("arg")]),
        ]
    );
}

#[test]
fn childless_blocks_parse_to_empty_config() {
    let config = parse_run("build\nclean\ntest").unwrap();
    assert_eq!(config, RunConfig { build: vec![], clean: vec![], test: None });
}

#[test]
fn malformed_document_fails() {
    let err = parse_run("build {").unwrap_err();
    assert!(matches!(err, Error::Document(_)));
}

#[test]
fn day_number_at_the_top_of_the_range_parses() {
    let s = "days {\n    day 255 root=\"p\"\n}";
    let config = parse_registry(s).unwrap();
    assert_eq!(config.day(255), Some(&DayConfig::new(String::from("p"))));
}

#[test]
fn day_number_just_past_the_range_fails() {
    let err = parse_registry("days {\n    day 256 root=\"p\"\n}").unwrap_err();
    assert_eq!(err, Error::DayNumberOutOfRange(256));
}

#[test]
fn run_property_values_become_arguments() {
    let config = parse_run("build {\n    run roc opt=\"fast\"\n}").unwrap();
    assert_eq!(
        config.build,
        vec![Program::new("roc").with_args(vec![String::from("fast")])]
    );
}

#[test]
fn registry_child_names_are_not_checked() {
    let config = parse_registry("days {\n    whatever 3 root=\"p\"\n}").unwrap();
    assert_eq!(config.day(3), Some(&DayConfig::new(String::from("p"))));
}
