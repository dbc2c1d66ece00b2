use cairo_filters::invocation;
use cairo_filters::scarb_cmd::{self, ScarbCommand};
use cairo_filters::snforge_cmd::{self, SnforgeCommand};

fn owned(args: &[&str]) -> Vec<String> {
    args.iter().map(|a| a.to_string()).collect()
}

#[test]
fn scarb_commands_are_planned() {
    let plan = scarb_cmd::run(ScarbCommand::Build, &owned(&["-p", "x"]), 0);
    assert_eq!(plan.program, "scarb");
    assert_eq!(plan.args, owned(&["build", "-p", "x"]));
    assert_eq!(plan.announcement, None);
    assert_eq!(plan.failure, "Failed to run scarb build");
    assert_eq!(plan.tee_label, "scarb_build");
    assert_eq!(plan.full_command, "scarb build -p x");
    assert_eq!(plan.short_command, "rtk scarb build -p x");

    let plan = scarb_cmd::run(ScarbCommand::Test, &[], 1);
    assert_eq!(plan.args, owned(&["test"]));
    assert_eq!(plan.announcement, Some("Running: scarb test ".to_string()));
    assert_eq!(plan.full_command, "scarb test ");

    let plan = scarb_cmd::run(ScarbCommand::Check, &owned(&["a"]), 2);
    assert_eq!(plan.args, owned(&["check", "a"]));
    assert_eq!(plan.announcement, Some("Running: scarb check a".to_string()));
    assert_eq!(plan.tee_label, "scarb_check");
}

#[test]
fn snforge_commands_are_planned() {
    let plan = snforge_cmd::run(SnforgeCommand::Test, &owned(&["--exact", "y"]), 1);
    assert_eq!(plan.program, "snforge");
    assert_eq!(plan.args, owned(&["test", "--exact", "y"]));
    assert_eq!(plan.announcement, Some("Running: snforge test --exact y".to_string()));
    assert_eq!(plan.failure, "Failed to run snforge test");
    assert_eq!(plan.tee_label, "snforge_test");
    assert_eq!(plan.full_command, "snforge test --exact y");
    assert_eq!(plan.short_command, "rtk snforge test --exact y");
}

#[test]
fn other_commands_are_named() {
    let names = scarb_cmd::run_passthrough("fmt --check");
    assert_eq!(names.failure, "Failed to run scarb");
    assert_eq!(names.full_command, "scarb fmt --check");
    assert_eq!(names.short_command, "rtk scarb fmt --check (passthrough)");
    let names = snforge_cmd::run_passthrough("init");
    assert_eq!(names.failure, "Failed to run snforge");
    assert_eq!(names.full_command, "snforge init");
    assert_eq!(names.short_command, "rtk snforge init (passthrough)");
}

#[test]
fn an_exit_code_is_found_for_every_status() {
    assert_eq!(invocation::exit_code(Some(7), false), 7);
    assert_eq!(invocation::exit_code(Some(0), true), 0);
    assert_eq!(invocation::exit_code(None, true), 0);
    assert_eq!(invocation::exit_code(None, false), 1);
    assert_eq!(invocation::passthrough_exit(Some(0), true), None);
    assert_eq!(invocation::passthrough_exit(Some(3), false), Some(3));
    assert_eq!(invocation::passthrough_exit(None, false), Some(1));
}

#[test]
fn a_build_is_concluded() {
    let outcome = scarb_cmd::conclude(ScarbCommand::Build, "   Compiling x\n", "error: bad", Some(1), false)
        .unwrap();
    assert_eq!(outcome.raw, "   Compiling x\n\nerror: bad");
    assert_eq!(
        outcome.filtered,
        "scarb build: 1 error, 0 warnings (1 packages)\n\
         ═══════════════════════════════════════\nerror: bad"
    );
    assert_eq!(outcome.exit_code, 1);
    assert_eq!(outcome.exit, Some(1));
    assert_eq!(outcome.shown(None), outcome.filtered);
    assert_eq!(outcome.shown(Some("see log")), format!("{}\nsee log", outcome.filtered));
}

#[test]
fn a_check_is_concluded_like_a_build() {
    let outcome = scarb_cmd::conclude(ScarbCommand::Check, "Checking x", "", Some(0), true).unwrap();
    assert_eq!(outcome.raw, "Checking x\n");
    assert_eq!(outcome.filtered, "✓ scarb build (1 packages compiled)");
    assert_eq!(outcome.exit_code, 0);
    assert_eq!(outcome.exit, None);
}

#[test]
fn test_runs_are_concluded() {
    let line = "test result: ok. 4 passed; 0 failed; 0 ignored; 0 filtered out;";
    let outcome = scarb_cmd::conclude(ScarbCommand::Test, line, "", None, true).unwrap();
    assert_eq!(outcome.filtered, "✓ scarb test: 4 passed (1 suite)");
    assert_eq!(outcome.exit_code, 0);
    assert_eq!(outcome.exit, None);

    let outcome = snforge_cmd::conclude(SnforgeCommand::Test, "[FAIL] a", "", None, false).unwrap();
    assert_eq!(outcome.filtered, "[FAIL] a");
    assert_eq!(outcome.exit_code, 1);
    assert_eq!(outcome.exit, Some(1));
}

#[test]
fn totals_that_cannot_be_held_have_no_outcome() {
    let line = format!("test result: ok. {} passed; 0 failed; 0 ignored; 0 filtered out;", usize::MAX);
    assert!(scarb_cmd::conclude(ScarbCommand::Test, &line, &line, Some(0), true).is_none());
    let line = format!("Tests: {} passed, 0 failed, 0 ignored, 0 filtered out", usize::MAX);
    assert!(snforge_cmd::conclude(SnforgeCommand::Test, &line, &line, Some(0), true).is_none());
}
