use cairo_filters::scarb_cmd::build_output::{self, BuildLine};
use cairo_filters::scarb_cmd::noise::{self, Stage};
use cairo_filters::scarb_cmd::test_output::{self, AggregatedTestResult, TestLine};
use cairo_filters::scarb_cmd::{filter_scarb_build, filter_scarb_test, filter_scarb_test_checked};
use cairo_filters::snforge_cmd::gas;
use cairo_filters::snforge_cmd::summary::{self, SnforgeTestCounts};
use cairo_filters::snforge_cmd::test_output as run_output;
use cairo_filters::snforge_cmd::test_output::RunLine;
use cairo_filters::snforge_cmd::{filter_snforge_test, filter_snforge_test_checked};

fn owned(lines: &[&str]) -> Vec<String> {
    lines.iter().map(|l| l.to_string()).collect()
}

fn groups(texts: &[&str]) -> Option<Vec<Option<String>>> {
    Some(texts.iter().map(|t| Some(t.to_string())).collect())
}

const RULE: &str = "═══════════════════════════════════════";

// scarb build

#[test]
fn build_lines_are_told_apart() {
    assert_eq!(build_output::classify("   Compiling lib"), BuildLine::Package);
    assert_eq!(build_output::classify("Checking lib"), BuildLine::Package);
    assert_eq!(build_output::classify(" Locking x"), BuildLine::Fetch);
    assert_eq!(build_output::classify("   Finished `dev`"), BuildLine::Finished);
    assert_eq!(
        build_output::classify("warn: `scarb cairo-test` is deprecated and"),
        BuildLine::Noise
    );
    assert_eq!(build_output::classify("error: could not compile `x`"), BuildLine::Aborted);
    assert_eq!(build_output::classify("error[E1]: aborting due to"), BuildLine::Aborted);
    assert_eq!(build_output::classify("error[E0001]: bad"), BuildLine::Error);
    assert_eq!(build_output::classify(" error: bad"), BuildLine::Other);
    assert_eq!(build_output::classify("warn[E0001]: odd"), BuildLine::CodedWarning);
    assert_eq!(build_output::classify("warn: odd"), BuildLine::PlainWarning);
    assert_eq!(build_output::classify("warning: `x` generated 2 warnings"), BuildLine::Tally);
    assert_eq!(build_output::classify("warning: other"), BuildLine::Other);
    assert_eq!(build_output::classify(""), BuildLine::Other);
}

#[test]
fn a_clean_build_is_one_line() {
    assert_eq!(filter_scarb_build(""), "✓ scarb build (0 packages compiled)");
    assert_eq!(
        filter_scarb_build("   Compiling a\n    Checking b\r\n    Finished `dev`\n"),
        "✓ scarb build (2 packages compiled)"
    );
}

#[test]
fn one_error_is_shown_whole() {
    let output = "   Compiling a\nerror[E0001]: bad\n --> src/lib.cairo:1:1\nlet x\n    ^\n\n\
                  error: could not compile `a`\n    Finished late\n";
    assert_eq!(
        filter_scarb_build(output),
        format!(
            "scarb build: 1 error, 0 warnings (1 packages)\n{}\n\
             error[E0001]: bad\n --> src/lib.cairo:1:1\nlet x\n    ^\n\nFinished late",
            RULE
        )
    );
}

#[test]
fn one_warning_is_shown_where_there_are_no_errors() {
    let output = "warn: unused variable\n\n  --> src/lib.cairo:2:9\nwarn: no pointer here\nlost\n";
    assert_eq!(
        filter_scarb_build(output),
        format!(
            "scarb build: 1 warning (0 packages)\n{}\nwarn: unused variable\n\n  --> src/lib.cairo:2:9",
            RULE
        )
    );
}

#[test]
fn warnings_follow_the_errors() {
    let output = "warn[E0003]: odd\nerror: bad\nwarn[E0004]: odder\n   Finished late\n";
    assert_eq!(
        filter_scarb_build(output),
        format!(
            "scarb build: 1 error, 2 warnings (0 packages)\n{}\n\
             error: bad\n\nwarn[E0003]: odd\n\nwarn[E0004]: odder\n\nFinished late",
            RULE
        )
    );
    let view = filter_scarb_build("warn[E0001]: Unused variable.\nerror[E0002]: Type not found.");
    assert!(view.contains("warn[E0001]: Unused variable."));
    assert!(view.contains("error[E0002]: Type not found."));
}

#[test]
fn errors_and_warnings_beyond_the_limits_are_counted_apart() {
    let mut output = String::new();
    for k in 1..=16 {
        output.push_str(&format!("warn[E{}]: odd\nerror: number {}\n", k, k));
    }
    let view = filter_scarb_build(&output);
    assert!(view.starts_with("scarb build: 16 errors, 16 warnings (0 packages)\n"));
    assert!(view.contains("error: number 15\n\n\n... +1 more errors\n\nwarn[E1]: odd\n"));
    assert!(view.ends_with("warn[E15]: odd\n\n\n... +1 more warnings"));
}

#[test]
fn errors_beyond_the_limit_are_counted() {
    let mut output = String::new();
    for k in 1..=17 {
        output.push_str(&format!("error: number {}\n", k));
    }
    let view = filter_scarb_build(&output);
    assert!(view.starts_with("scarb build: 17 errors, 0 warnings (0 packages)\n"));
    for k in 1..=15 {
        assert!(view.contains(&format!("error: number {}\n", k)));
    }
    assert!(!view.contains("error: number 16"));
    assert!(view.ends_with("error: number 15\n\n\n... +2 more errors"));
}

#[test]
fn warnings_beyond_the_limit_are_counted() {
    let mut output = String::new();
    for k in 1..=16 {
        output.push_str(&format!("warn[E{}]: odd\n", k));
    }
    let view = filter_scarb_build(&output);
    assert!(view.starts_with("scarb build: 16 warnings (0 packages)\n"));
    assert!(view.contains("warn[E15]: odd"));
    assert!(!view.contains("warn[E16]: odd"));
    assert!(view.ends_with("... +1 more warnings"));
}

#[test]
fn exactly_the_limit_is_shown() {
    let mut output = String::new();
    for k in 1..=15 {
        output.push_str(&format!("error: number {}\n", k));
    }
    let view = filter_scarb_build(&output);
    assert!(view.ends_with("\n\nerror: number 15"));
    assert!(!view.contains("more errors"));
}

#[test]
fn what_belongs_to_a_noise_warning_is_not_shown() {
    let output = "warn: artefacts produced by this build may be hard to utilize due to x\n\
                  error of its own\nmore\n\nwarn[E0001]: odd\n";
    let view = filter_scarb_build(output);
    assert!(!view.contains("artefacts"));
    assert!(view.starts_with("scarb build: 1 warning (0 packages)\n"));
    assert!(view.ends_with("warn[E0001]: odd"));
    assert!(noise::is_noise_warn("warn: `cairo_test` plugin not found in"));
    assert!(!noise::is_noise_warn(" warn: `cairo_test` plugin not found in"));
    let lines = owned(&["a", "b", " Finished", "running 1 test"]);
    assert_eq!(noise::skip_noise(Stage::Build, &lines, 0), 2);
    assert_eq!(noise::skip_noise(Stage::Test, &lines, 0), 3);
    assert_eq!(noise::skip_noise(Stage::Test, &lines, 4), 4);
}

#[test]
fn no_error_line_of_a_build_is_lost() {
    let output = "error: first\n\nwarn: stray\nerror: second\nx\ny\nz\n\nw\nerror[E3]: third\n";
    let scan = build_output::scan_build(output);
    assert_eq!(
        scan.errors,
        owned(&["error: first\n", "error: second\nx\ny\nz", "error[E3]: third"])
    );
    assert_eq!(scan.warnings.len(), 0);
    let view = build_output::report_build(&scan);
    for line in ["error: first", "error: second", "error[E3]: third"] {
        assert!(view.contains(line));
    }
    assert_eq!(view, view.trim());
}

// scarb test

#[test]
fn test_lines_are_told_apart() {
    assert_eq!(test_output::classify("  Updating x"), TestLine::Dropped);
    assert_eq!(test_output::classify("running 3 tests"), TestLine::Dropped);
    assert_eq!(test_output::classify("test a::b ... ok"), TestLine::Dropped);
    assert_eq!(test_output::classify("test a::b ... FAILED"), TestLine::Other);
    assert_eq!(
        test_output::classify("warn: `scarb cairo-test` is deprecated"),
        TestLine::Noise
    );
    assert_eq!(test_output::classify("failures:"), TestLine::Failures);
    assert_eq!(test_output::classify(" failures:"), TestLine::Other);
    assert_eq!(test_output::classify("test result: ok."), TestLine::Other);
}

#[test]
fn a_summary_line_is_parsed() {
    let line = "test result: ok. 12 passed; 3 failed; 2 ignored;  1 filtered out;";
    let result = AggregatedTestResult::parse_line(line);
    assert_eq!(
        result,
        Some(AggregatedTestResult { passed: 12, failed: 3, ignored: 2, filtered_out: 1, suites: 1 })
    );
    assert_eq!(AggregatedTestResult::parse_line("test result: ok. 12 passed"), None);
}

#[test]
fn the_groups_of_a_summary_line_decide_its_result() {
    let good = groups(&["", "ok", "1", "2", "3", "4"]);
    assert_eq!(
        AggregatedTestResult::from_captures(&good),
        Some(AggregatedTestResult { passed: 1, failed: 2, ignored: 3, filtered_out: 4, suites: 1 })
    );
    assert_eq!(AggregatedTestResult::from_captures(&None), None);
    assert_eq!(
        AggregatedTestResult::from_captures(&groups(&["", "FAILED", "1", "2", "3", "4"])),
        None
    );
    assert_eq!(AggregatedTestResult::from_captures(&groups(&["", "ok", "1", "2", "3"])), None);
    let large = format!("{}0", usize::MAX);
    assert_eq!(
        AggregatedTestResult::from_captures(&groups(&["", "ok", "1", &large, "3", "4"])),
        None
    );
}

#[test]
fn results_are_merged_and_written() {
    let mut sum = AggregatedTestResult::default();
    assert_eq!(sum.format_compact(), "✓ scarb test: 0 passed (0 suites)");
    sum.merge(&AggregatedTestResult { passed: 1, failed: 2, ignored: 3, filtered_out: 4, suites: 1 });
    assert_eq!(
        sum.format_compact(),
        "✓ scarb test: 1 passed, 3 ignored, 4 filtered out (1 suite)"
    );
    sum.merge(&AggregatedTestResult { passed: 9, failed: 0, ignored: 0, filtered_out: 0, suites: 1 });
    assert_eq!(
        sum,
        AggregatedTestResult { passed: 10, failed: 2, ignored: 3, filtered_out: 4, suites: 2 }
    );
}

#[test]
fn suites_are_added_up() {
    let output = "running 2 tests\ntest a ... ok\n\
                  test result: ok. 2 passed; 0 failed; 1 ignored; 0 filtered out;\n\
                  test result: ok. 3 passed; 0 failed; 0 ignored; 5 filtered out;\n";
    let view = "✓ scarb test: 5 passed, 1 ignored, 5 filtered out (2 suites)";
    assert_eq!(filter_scarb_test(output), view);
    assert_eq!(filter_scarb_test_checked(output), Some(view.to_string()));
}

#[test]
fn totals_that_cannot_be_held_give_no_view() {
    let line = format!(
        "test result: ok. {} passed; 0 failed; 0 ignored; 0 filtered out;\n",
        usize::MAX
    );
    assert_eq!(
        filter_scarb_test_checked(&line),
        Some(format!("✓ scarb test: {} passed (1 suite)", usize::MAX))
    );
    let twice = format!("{}{}", line, line);
    assert_eq!(filter_scarb_test_checked(&twice), None);
}

#[test]
fn summary_lines_stand_for_themselves_where_one_reports_no_success() {
    let output = "test result: ok. 1 passed; 0 failed; 0 ignored; 0 filtered out;\n\
                  test result: odd\n";
    assert_eq!(
        filter_scarb_test(output),
        "✓ test result: ok. 1 passed; 0 failed; 0 ignored; 0 filtered out;\n✓ test result: odd"
    );
}

#[test]
fn the_last_lines_stand_for_an_output_without_summary() {
    let output = "one\n\ntwo\n  Compiling x\nthree\nfour\nBlocking y\n five\nsix \n\n";
    assert_eq!(filter_scarb_test(output), "two\nthree\nfour\n five\nsix");
    assert_eq!(filter_scarb_test("  \n"), "");
}

#[test]
fn the_last_lines_hold_no_noise() {
    assert_eq!(filter_scarb_test("test a::b ... ok\n"), "");
    let output = "real trouble\ntest a ... ok\ntest b ... FAILED\n\
                  warn: `scarb cairo-test` is deprecated, please migrate\n    help: see there\n\n\
                  Finished `dev`\nBlocking elsewhere\n   Checking y\nend \n";
    assert_eq!(filter_scarb_test(output), "real trouble\ntest b ... FAILED\nend");
}

#[test]
fn the_last_lines_hold_what_else_was_printed() {
    assert_eq!(filter_scarb_test("running 3 tests"), "running 3 tests");
    let output = "one\nrunning late\n Downloading a\n  Downloaded b\nLocking c\nUpdating d\n";
    assert_eq!(
        filter_scarb_test(output),
        "running late\n Downloading a\n  Downloaded b\nLocking c\nUpdating d"
    );
}

#[test]
fn an_indented_line_tells_of_no_passed_test() {
    assert_eq!(filter_scarb_test("  test a ... ok\nx\n"), "test a ... ok\nx");
}

#[test]
fn failures_are_numbered() {
    let output = "failures:\n    a::one - Panicked\n    more\n\nplain\n\n\
                  test result: FAILED. 0 passed; 2 failed; 0 ignored; 0 filtered out;\n";
    assert_eq!(
        filter_scarb_test(output),
        format!(
            "FAILURES (2):\n{}\n1.     a::one - Panicked\n    more\n2. plain\n\n\
             test result: FAILED. 0 passed; 2 failed; 0 ignored; 0 filtered out;",
            RULE
        )
    );
}

#[test]
fn failures_beyond_the_limit_are_counted() {
    let mut output = String::from("failures:\n");
    for k in 1..=12 {
        output.push_str(&format!("case {}\n\n", k));
    }
    output.push_str("test result: FAILED. rest\n");
    let view = filter_scarb_test(&output);
    assert!(view.starts_with("FAILURES (12):\n"));
    for k in 1..=10 {
        assert!(view.contains(&format!("{}. case {}\n", k, k)));
    }
    assert!(!view.contains("case 11"));
    assert!(view.ends_with("\n... +2 more failures\n\ntest result: FAILED. rest"));
    assert_eq!(view, view.trim());
}

#[test]
fn every_summary_line_of_a_failing_run_is_kept() {
    let output = "test result: ok. first\nfailures:\nbroken\ntest a ... ok\ntest result: FAILED. last\n";
    let scan = test_output::scan_test(output);
    assert_eq!(scan.summaries, owned(&["test result: ok. first", "test result: FAILED. last"]));
    assert_eq!(scan.failures, owned(&["broken"]));
    let results = vec![None, None];
    let view = test_output::report_test(output, &scan, &results);
    assert!(view.ends_with("test result: ok. first\ntest result: FAILED. last"));
    assert!(!view.contains("test a"));
}

// snforge: figures

#[test]
fn gas_figures_are_compressed() {
    assert_eq!(
        gas::compress_pass_gas_line(
            "[PASS] test::name (l1_gas: ~0, l1_data_gas: ~0, l2_gas: ~809044)"
        ),
        Some("[PASS] test::name (l2:~809044)".to_string())
    );
    assert_eq!(
        gas::compress_pass_gas_line("[PASS] a(b) (l1_gas: ~1, l1_data_gas: ~96, x: 2, l2_gas: ~3)"),
        Some("[PASS] a(b) (l1:~1 l1d:~96 x: 2 l2:~3)".to_string())
    );
    assert_eq!(
        gas::compress_pass_gas_line("[PASS] quiet (l1_gas: ~0, l2_gas: ~0, )"),
        Some("[PASS] quiet".to_string())
    );
    assert_eq!(
        gas::compress_pass_gas_line("[PASS] ten (l2_gas: ~10)"),
        Some("[PASS] ten (l2:~10)".to_string())
    );
    assert_eq!(gas::compress_pass_gas_line("[PASS] basic (gas: ~5)"), None);
    assert_eq!(gas::compress_pass_gas_line("[PASS] no figures l1_gas: 1"), None);
    assert_eq!(gas::compress_pass_gas_line("[PASS] l2_gas: ) ("), None);
}

#[test]
fn resources_are_compressed() {
    assert_eq!(
        gas::compress_resource_line("        syscalls: call_contract: 2, deploy: 1"),
        Some("  syscalls:call_contract:2,deploy:1".to_string())
    );
    assert_eq!(
        gas::compress_resource_line("builtins: (range_check: 5)"),
        Some("  builtins:range_check:5".to_string())
    );
    assert_eq!(
        gas::compress_resource_line("l2_l1_message_sizes: [3, 4]"),
        Some("  l2_msg:[3,4]".to_string())
    );
    assert_eq!(gas::compress_resource_line("syscalls: ()"), None);
    assert_eq!(gas::compress_resource_line("syscalls:   "), None);
    assert_eq!(gas::compress_resource_line("builtins: (())"), None);
    assert_eq!(gas::compress_resource_line("other: 1"), None);
}

#[test]
fn a_gas_table_becomes_entries() {
    assert!(gas::is_gas_table_start("  ╭───╮"));
    assert!(!gas::is_gas_table_start("╰───╯"));
    assert!(gas::is_gas_table_end("╰───╯"));
    assert!(!gas::is_gas_table_end("│ ╰ │"));
    let table = owned(&[
        "╭──────────┬──────────╮",
        "│ Calls gas report │",
        "│ before │ header: 1 │",
        "│ Contract │ Function │",
        "├──────────┼──────────┤",
        "│ ERC20 │ transfer │",
        "│ │ min: 1234 │",
        "│ │ max: 5678 │",
        "│ ERC20 │ approve │",
        "│ │ min: 1 │",
        "│ Vault │ │",
        "│ │ mean: 2 │",
        "│ │ │",
        "╰──────────┴──────────╯",
    ]);
    assert_eq!(
        gas::compress_gas_table(&table),
        owned(&[
            "ERC20::transfer: min:1234 max:5678",
            "ERC20::approve: min:1",
            "Vault::approve: mean:2"
        ])
    );
    assert_eq!(gas::compress_gas_table(&table[..4]).len(), 0);
}

// snforge: summaries

#[test]
fn the_groups_of_a_counts_line_decide_its_counts() {
    let counts = SnforgeTestCounts { passed: 1, failed: 2, ignored: 3, filtered_out: 4 };
    assert_eq!(
        SnforgeTestCounts::from_captures(&groups(&["", "1", "2", "3", "4"])),
        Some(counts)
    );
    assert_eq!(SnforgeTestCounts::from_captures(&None), None);
    assert_eq!(SnforgeTestCounts::from_captures(&groups(&["", "1", "2", "3"])), None);
    assert_eq!(SnforgeTestCounts::from_captures(&groups(&["", "1", "2", "x", "4"])), None);
}

#[test]
fn a_counts_line_is_parsed() {
    assert_eq!(
        SnforgeTestCounts::parse("Tests: 5 passed,  1 failed, 0 ignored, 2 filtered out"),
        Some(SnforgeTestCounts { passed: 5, failed: 1, ignored: 0, filtered_out: 2 })
    );
    assert_eq!(SnforgeTestCounts::parse("Tests: 5 passed"), None);
    assert_eq!(
        summary::parse_packages(&owned(&["Tests: 5 passed"])),
        vec![None]
    );
}

#[test]
fn counts_tell_whether_a_run_passed() {
    let fine = SnforgeTestCounts { passed: 2, failed: 0, ignored: 1, filtered_out: 0 };
    let bad = SnforgeTestCounts { passed: 2, failed: 1, ignored: 0, filtered_out: 0 };
    let line = Some("✓ snforge test: 2 passed, 1 ignored (1 package)".to_string());
    assert_eq!(summary::summarize(Some(fine), &vec![], 0), line);
    assert_eq!(summary::summarize(Some(fine), &vec![None], 1), line);
    assert_eq!(summary::summarize(Some(bad), &vec![], 3), None);
    assert_eq!(summary::summarize(None, &vec![], 3), None);
    assert_eq!(summary::summarize(None, &vec![Some(fine), None], 3), None);
    assert_eq!(summary::summarize(None, &vec![Some(fine), Some(bad)], 3), None);
    assert_eq!(
        summary::summarize(Some(bad), &vec![Some(fine), Some(fine)], 1),
        Some("✓ snforge test: 4 passed, 2 ignored (2 packages)".to_string())
    );
    assert_eq!(
        summary::summarize(None, &vec![Some(fine)], 3),
        Some("✓ snforge test: 2 passed, 1 ignored (3 packages)".to_string())
    );
    assert_eq!(fine.format_compact(1), line.unwrap());
}

#[test]
fn the_compact_line_is_built_from_summary_lines() {
    let line = "Tests: 1 passed, 0 failed, 0 ignored, 3 filtered out";
    assert_eq!(
        summary::build_compact_summary(None, &owned(&[line, line]), 0),
        Some("✓ snforge test: 2 passed, 6 filtered out (2 packages)".to_string())
    );
    assert_eq!(summary::build_compact_summary(Some("odd"), &vec![], 1), None);
}

// snforge: runs

#[test]
fn run_lines_are_told_apart() {
    assert_eq!(run_output::classify("  sierra gas: 5"), RunLine::Dropped);
    assert_eq!(run_output::classify("  syscalls: ()"), RunLine::Resource);
    assert_eq!(run_output::classify("Running 2 test(s) from src/"), RunLine::Dropped);
    assert_eq!(run_output::classify("Collected 2 test(s) from x package"), RunLine::Collected);
    assert_eq!(run_output::classify("[PASS] a"), RunLine::Pass);
    assert_eq!(run_output::classify("[IGNORED] a"), RunLine::Dropped);
    assert_eq!(run_output::classify(" [FAIL] a"), RunLine::Fail);
    assert_eq!(run_output::classify("  Failure data:  "), RunLine::FailureData);
    assert_eq!(run_output::classify("Failure data: x"), RunLine::Other);
    assert!(run_output::is_compilation_noise("   Compiling test"));
    assert!(!run_output::is_compilation_noise("   Compilingtest"));
}

#[test]
fn a_passing_run_is_one_line() {
    let output = "Collected 3 test(s) from x package\nRunning 3 test(s) from src/\n\
                  [PASS] a (gas: ~1)\n[IGNORED] b\n\
                  Tests: 2 passed, 0 failed, 1 ignored, 0 filtered out\n";
    let view = "✓ snforge test: 2 passed, 1 ignored (1 package)";
    assert_eq!(filter_snforge_test(output), view);
    assert_eq!(filter_snforge_test_checked(output), Some(view.to_string()));
}

#[test]
fn a_tick_means_that_the_run_passed() {
    let good = "Tests: 1 passed, 0 failed, 0 ignored, 0 filtered out\n";
    let bad = "Tests: 1 passed, 2 failed, 0 ignored, 0 filtered out\n";
    assert!(filter_snforge_test(good).contains('✓'));
    assert!(filter_snforge_test(&format!("[PASS] a (l2_gas: ~7)\n{}", good)).contains('✓'));
    assert!(!filter_snforge_test(bad).contains('✓'));
    assert!(!filter_snforge_test(&format!("[PASS] a (l2_gas: ~7)\n{}", bad)).contains('✓'));
    assert!(!filter_snforge_test(&format!("[FAIL] a\n{}", good)).contains('✓'));
    assert!(!filter_snforge_test(&format!("{}Failure data:\n", good)).contains('✓'));
    assert!(!filter_snforge_test("").contains('✓'));
}

#[test]
fn the_counts_of_the_whole_run_come_first() {
    let package = format!("Tests: {} passed, 0 failed, 0 ignored, 0 filtered out\n", usize::MAX);
    let run = "Tests summary: 4 passed, 0 failed, 0 ignored, 0 filtered out\n";
    let output = format!("{}{}{}", package, package, run);
    let view = "✓ snforge test: 4 passed (1 package)";
    assert_eq!(filter_snforge_test_checked(&output), Some(view.to_string()));
    assert_eq!(filter_snforge_test(&output), view);
}

#[test]
fn package_totals_that_cannot_be_held_give_no_view() {
    let line = format!(
        "Tests: {} passed, 0 failed, 0 ignored, 0 filtered out\n",
        usize::MAX
    );
    let twice = format!("{}{}", line, line);
    assert_eq!(filter_snforge_test_checked(&twice), None);
    let failing = format!("[FAIL] a\n{}", twice);
    let view = filter_snforge_test_checked(&failing);
    assert_eq!(view, Some(format!("[FAIL] a\n\n{}", twice).trim().to_string()));
}

#[test]
fn every_failing_test_is_kept() {
    let output = "[FAIL] one\n[FAIL] two\n\nFailure data:\n    reason\n\n[PASS] ok (gas: ~1)\n[FAIL] three\n\
                  Tests: 1 passed, 3 failed, 0 ignored, 0 filtered out\n";
    assert_eq!(
        filter_snforge_test(output),
        "[FAIL] one\n\n[FAIL] two\nFailure data:\n    reason\n\n[FAIL] three\n\n\
         Tests: 1 passed, 3 failed, 0 ignored, 0 filtered out"
    );
}

#[test]
fn failure_data_of_no_known_test_is_kept() {
    let output = "Failure data:\n    stray\n[FAIL] later\n";
    assert_eq!(
        filter_snforge_test(output),
        "Failure data:\n    stray\n\n[FAIL] later"
    );
}

#[test]
fn summary_lines_are_kept_where_no_compact_line_stands_for_them() {
    let output = "Tests: 1 passed, 2 failed, 0 ignored, 0 filtered out\n\
                  Tests summary: 1 passed, 2 failed, 0 ignored, 0 filtered out\n";
    assert_eq!(filter_snforge_test(output), output.trim());
}

#[test]
fn the_last_summary_of_the_run_counts() {
    let scan = run_output::scan_run("Tests summary: first\nTests summary: second\nTests: 1 passed\n");
    assert_eq!(scan.global_summary.as_deref(), Some("Tests summary: second"));
    assert_eq!(scan.package_summaries, owned(&["Tests: 1 passed"]));
}

#[test]
fn details_and_gas_entries_precede_the_compact_line() {
    let output = "[PASS] a (l1_gas: ~0, l2_gas: ~7)\n        sierra gas: 7\n        syscalls: (deploy: 1)\n\
                  ╭───╮\n│ Contract │ Function │\n│ C │ f │\n│ │ min: 1 │\n╰───╯\n\
                  Tests: 1 passed, 0 failed, 0 ignored, 0 filtered out\n";
    let scan = run_output::scan_run(output);
    assert_eq!(
        run_output::report_run(&scan, Some("✓ line".to_string())),
        "[PASS] a (l2:~7)\n  syscalls:deploy:1\nGas report:\n  C::f: min:1\n✓ line"
    );
    assert_eq!(
        run_output::report_run(&scan, None),
        "[PASS] a (l2:~7)\n  syscalls:deploy:1\nGas report:\n  C::f: min:1\n\
         Tests: 1 passed, 0 failed, 0 ignored, 0 filtered out"
    );
}

#[test]
fn gas_entries_follow_the_failures() {
    let output = "[FAIL] a\n╭───╮\n│ Contract │ Function │\n│ C │ f │\n│ │ min: 1 │\n╰───╯\n\
                  [PASS] b (l2_gas: ~7)\nTests summary: odd\n";
    assert_eq!(
        filter_snforge_test(output),
        "[FAIL] a\n\nGas report:\n  C::f: min:1\n\nTests summary: odd"
    );
}

#[test]
fn a_failure_ends_a_table_that_has_no_bottom() {
    let table = "╭───╮\n│ Contract │ Function │\n│ C │ f │\n│ │ min: 1 │\n";
    let failure = "[FAIL] a\n\nFailure data:\n    reason\n\n";
    let counts = "Tests: 0 passed, 1 failed, 0 ignored, 0 filtered out";
    assert_eq!(
        filter_snforge_test(&format!("{}noise\n{}{}\n", table, failure, counts)),
        format!(
            "[FAIL] a\nFailure data:\n    reason\n\nGas report:\n  C::f: min:1\n\n{}",
            counts
        )
    );
    assert_eq!(
        filter_snforge_test(&format!("{}Failure data:\n    reason\n╰───╯\n", table)),
        "Failure data:\n    reason\n╰───╯\n\nGas report:\n  C::f: min:1"
    );
}

#[test]
fn a_summary_ends_a_table_that_has_no_bottom() {
    let table = "╭───╮\n│ Contract │ Function │\n│ C │ f │\n│ │ min: 1 │\n";
    let scan = run_output::scan_run(&format!("{}Tests: 1 passed\nTests summary: x\n", table));
    assert_eq!(scan.package_summaries, owned(&["Tests: 1 passed"]));
    assert_eq!(scan.global_summary.as_deref(), Some("Tests summary: x"));
    assert_eq!(scan.gas_entries, owned(&["C::f: min:1"]));
    assert_eq!(scan.table.len(), 0);
    let open = run_output::scan_run(table);
    assert_eq!(open.gas_entries.len(), 0);
}

#[test]
fn summary_lines_tell_whether_their_totals_can_be_held() {
    let large = format!("Tests: {} passed, 0 failed, 0 ignored, 0 filtered out", usize::MAX);
    let run = "Tests summary: 1 passed, 0 failed, 0 ignored, 0 filtered out";
    assert!(summary::can_count(None, &vec![large.clone()]));
    assert!(!summary::can_count(None, &vec![large.clone(), large.clone()]));
    assert!(summary::can_count(Some(run), &vec![large.clone(), large]));
}

#[test]
fn compiler_warnings_are_not_shown() {
    let output = "warn[E0001]: odd\n --> src/lib.cairo\n    [FAIL] in the source\n\nwarn: x\n[FAIL] real\n";
    assert_eq!(filter_snforge_test(output), "[FAIL] real");
}
