use cairo_filters::scarb_cmd::{filter_scarb_build, filter_scarb_test};

// ── Build filter tests ──────────────────────────────────────────────────

#[test]
fn test_filter_scarb_build_success_no_warnings() {
    let output = r#"   Compiling falcon v0.1.0 (/path/Scarb.toml)
   Compiling falcon_account v0.1.0 (/path/Scarb.toml)
   Compiling falcon_old v0.1.0 (/path/Scarb.toml)
    Finished `dev` profile target(s) in 33 seconds
"#;
    let result = filter_scarb_build(output);
    assert!(
        result.contains("✓ scarb build"),
        "should show success: {}",
        result
    );
    assert!(
        result.contains("3 packages compiled"),
        "should count packages: {}",
        result
    );
    assert!(
        !result.contains("Compiling"),
        "should strip Compiling: {}",
        result
    );
}

#[test]
fn test_filter_scarb_build_with_user_code_warnings() {
    let output = r#"   Compiling falcon v0.1.0 (/path/Scarb.toml)
warn[E0001]: Unused variable. Consider ignoring by prefixing with `_`.
 --> /home/user/packages/falcon/src/ntt.cairo:1563:9
    let Q = 12289;
        ^

   Compiling falcon_account v0.1.0 (/path/Scarb.toml)
    Finished `dev` profile target(s) in 33 seconds
"#;
    let result = filter_scarb_build(output);
    assert!(
        result.contains("1 warning"),
        "should count user warning: {}",
        result
    );
    assert!(
        result.contains("warn[E0001]"),
        "should show warning code: {}",
        result
    );
    assert!(
        !result.contains("Compiling"),
        "should strip Compiling: {}",
        result
    );
}

#[test]
fn test_filter_scarb_build_strips_deprecation_noise() {
    let output = r#"warn: `scarb cairo-test` is deprecated, please migrate to starknet foundry
    help: run `scarb add starknet-foundry --dev` to install starknet foundry
    help: see https://foundry.url for more information
    help: to temporarily silence this warning, add `cairo-test.ignore = true` to your Scarb.toml
   Compiling falcon v0.1.0 (/path/Scarb.toml)
    Finished `dev` profile target(s) in 5 seconds
"#;
    let result = filter_scarb_build(output);
    assert!(
        result.contains("✓ scarb build"),
        "should show success after stripping noise: {}",
        result
    );
    assert!(
        !result.contains("deprecated"),
        "should strip deprecation noise: {}",
        result
    );
    assert!(
        !result.contains("migrate"),
        "should strip help lines: {}",
        result
    );
}

#[test]
fn test_filter_scarb_build_strips_artefacts_noise() {
    let output = r#"   Compiling falcon v0.1.0 (/path/Scarb.toml)
warn: artefacts produced by this build may be hard to utilize due to the build configuration
please make sure your build configuration is correct
help: if you want to compile a Starknet contract, make sure to use the `starknet-contract` target
      in your Scarb.toml file.
      See https://docs.swmansion.com/scarb/docs for help.

    Finished `release` profile target(s) in 31 seconds
"#;
    let result = filter_scarb_build(output);
    assert!(
        result.contains("✓ scarb build"),
        "should succeed after stripping artefacts noise: {}",
        result
    );
    assert!(
        !result.contains("artefacts"),
        "should strip artefacts warning: {}",
        result
    );
}

#[test]
fn test_filter_scarb_build_keeps_unreachable_code_warning() {
    let output = r#"   Compiling falcon_old v0.1.0 (/path/Scarb.toml)
warn: Unreachable code
 --> /home/user/packages/falcon_old/src/ntt_constants.cairo:121:9
        array![].span()
        ^^^^^^^^^^^^^^^

    Finished `dev` profile target(s) in 10 seconds
"#;
    let result = filter_scarb_build(output);
    assert!(
        result.contains("1 warning"),
        "should count unreachable code warning: {}",
        result
    );
    assert!(
        result.contains("Unreachable"),
        "should show unreachable code: {}",
        result
    );
}

#[test]
fn test_filter_scarb_build_strips_blocking_file_lock() {
    let output = r#"Blocking waiting for file lock on package cache
   Compiling falcon v0.1.0 (/path/Scarb.toml)
    Finished `dev` profile target(s) in 5 seconds
"#;
    let result = filter_scarb_build(output);
    assert!(
        result.contains("✓ scarb build"),
        "should succeed: {}",
        result
    );
    assert!(
        !result.contains("Blocking"),
        "should strip file lock message: {}",
        result
    );
}

#[test]
fn test_filter_scarb_build_with_errors() {
    let output = r#"   Compiling falcon v0.1.0 (/path/Scarb.toml)
error[E0001]: Variable not found.
 --> /home/user/packages/falcon/src/lib.cairo:10:5
    undefined_var
    ^^^^^^^^^^^^^

error: could not compile `falcon` due to previous errors.
"#;
    let result = filter_scarb_build(output);
    assert!(
        result.contains("1 error"),
        "should count errors: {}",
        result
    );
    assert!(
        result.contains("E0001"),
        "should show error code: {}",
        result
    );
    assert!(
        result.contains("Variable not found"),
        "should show error message: {}",
        result
    );
    assert!(
        !result.contains("could not compile"),
        "should strip aborting line: {}",
        result
    );
}

#[test]
fn test_filter_scarb_build_empty_input() {
    let result = filter_scarb_build("");
    assert!(
        result.contains("✓ scarb build") || result.is_empty(),
        "should handle empty input: {}",
        result
    );
}

// ── Test filter tests ───────────────────────────────────────────────────

#[test]
fn test_filter_scarb_test_all_pass_zero_tests() {
    let output = r#"running 0 tests
test result: ok. 0 passed; 0 failed; 0 ignored; 0 filtered out;
"#;
    let result = filter_scarb_test(output);
    assert!(
        result.contains("✓ scarb test"),
        "should show success: {}",
        result
    );
    assert!(
        result.contains("0 passed"),
        "should show passed count: {}",
        result
    );
}

#[test]
fn test_filter_scarb_test_strips_deprecation_and_blocking() {
    let output = r#"warn: `scarb cairo-test` is deprecated, please migrate to starknet foundry
    help: run `scarb add starknet-foundry --dev` to install starknet foundry
    help: see https://foundry.url for more
Blocking waiting for file lock on package cache
   Compiling snforge_scarb_plugin v0.1.0 (git+https://github.com/...)
    Finished `release` profile [optimized] target(s) in 5s
running 0 tests
test result: ok. 0 passed; 0 failed; 0 ignored; 0 filtered out;
"#;
    let result = filter_scarb_test(output);
    assert!(
        result.contains("✓ scarb test"),
        "should show success: {}",
        result
    );
    assert!(
        !result.contains("deprecated"),
        "should strip deprecation: {}",
        result
    );
    assert!(
        !result.contains("Blocking"),
        "should strip file lock: {}",
        result
    );
    assert!(
        !result.contains("snforge_scarb_plugin"),
        "should strip plugin compilation: {}",
        result
    );
}

#[test]
fn test_filter_scarb_test_multiple_suites_all_pass() {
    let output = r#"running 5 tests
test falcon::test_a ... ok
test falcon::test_b ... ok
test result: ok. 5 passed; 0 failed; 0 ignored; 0 filtered out;

running 3 tests
test account::test_x ... ok
test account::test_y ... ok
test account::test_z ... ok
test result: ok. 3 passed; 0 failed; 0 ignored; 0 filtered out;
"#;
    let result = filter_scarb_test(output);
    assert!(
        result.contains("✓ scarb test"),
        "should show success: {}",
        result
    );
    assert!(
        result.contains("8 passed"),
        "should aggregate passed: {}",
        result
    );
    assert!(
        result.contains("2 suites"),
        "should show suite count: {}",
        result
    );
    assert!(
        !result.contains("test falcon::test_a"),
        "should strip passing test lines: {}",
        result
    );
}

#[test]
fn test_filter_scarb_test_with_failures() {
    let output = r#"running 3 tests
test falcon::test_good ... ok
test falcon::test_bad ... FAILED
test falcon::test_another ... ok

failures:

---- falcon::test_bad stdout ----
thread 'falcon::test_bad' panicked at 'assertion failed: left == right'

failures:
    falcon::test_bad

test result: FAILED. 2 passed; 1 failed; 0 ignored; 0 filtered out;
"#;
    let result = filter_scarb_test(output);
    assert!(
        result.contains("FAILURES"),
        "should show failures section: {}",
        result
    );
    assert!(
        result.contains("test_bad"),
        "should show failing test: {}",
        result
    );
    assert!(
        result.contains("test result:"),
        "should show summary: {}",
        result
    );
}

#[test]
fn test_filter_scarb_test_strips_passing_test_lines() {
    let output = r#"running 10 tests
test a::test_1 ... ok
test a::test_2 ... ok
test a::test_3 ... ok
test result: ok. 10 passed; 0 failed; 0 ignored; 0 filtered out;
"#;
    let result = filter_scarb_test(output);
    assert!(
        !result.contains("test a::test_1"),
        "should strip passing test lines: {}",
        result
    );
    assert!(
        result.contains("✓ scarb test: 10 passed"),
        "should show compact summary: {}",
        result
    );
}

#[test]
fn test_filter_scarb_build_token_savings() {
    // Real-world scarb build output with lots of compilation noise
    let input = r#"   Compiling falcon v0.1.0 (/path/Scarb.toml)
warn: `scarb cairo-test` is deprecated, please migrate to starknet foundry
    help: run `scarb add starknet-foundry --dev` to install starknet foundry
    help: see https://foundry.url for more information
    help: to temporarily silence this warning, add `cairo-test.ignore = true` to your Scarb.toml
   Compiling falcon_account v0.1.0 (/path/Scarb.toml)
   Compiling falcon_old v0.1.0 (/path/Scarb.toml)
warn: artefacts produced by this build may be hard to utilize due to the build configuration
please make sure your build configuration is correct
help: if you want to compile a Starknet contract, make sure to use the `starknet-contract` target
      in your Scarb.toml file.
      See https://docs.swmansion.com/scarb/docs for help.
   Compiling falcon_zknox v0.1.0 (/path/Scarb.toml)
    Finished `dev` profile target(s) in 33 seconds
"#;
    let output = filter_scarb_build(input);
    let input_tokens = input.split_whitespace().count();
    let output_tokens = output.split_whitespace().count();
    let savings = 100.0 - (output_tokens as f64 / input_tokens as f64 * 100.0);
    assert!(
        savings >= 60.0,
        "Expected ≥60% token savings, got {:.1}% (input: {}, output: {})\nOutput: {}",
        savings,
        input_tokens,
        output_tokens,
        output
    );
}

#[test]
fn test_filter_scarb_test_token_savings() {
    let input = r#"warn: `scarb cairo-test` is deprecated, please migrate to starknet foundry
    help: run `scarb add starknet-foundry --dev` to install starknet foundry
    help: see https://foundry.url for more information
    help: to temporarily silence this warning, add `cairo-test.ignore = true` to your Scarb.toml
Blocking waiting for file lock on package cache
   Compiling snforge_scarb_plugin v0.34.0 (git+https://github.com/foundry-rs/starknet-foundry)
    Finished `release` profile [optimized] target(s) in 45s
running 0 tests
test result: ok. 0 passed; 0 failed; 0 ignored; 0 filtered out;
running 0 tests
test result: ok. 0 passed; 0 failed; 0 ignored; 0 filtered out;
running 0 tests
test result: ok. 0 passed; 0 failed; 0 ignored; 0 filtered out;
running 0 tests
test result: ok. 0 passed; 0 failed; 0 ignored; 0 filtered out;
"#;
    let output = filter_scarb_test(input);
    let input_tokens = input.split_whitespace().count();
    let output_tokens = output.split_whitespace().count();
    let savings = 100.0 - (output_tokens as f64 / input_tokens as f64 * 100.0);
    assert!(
        savings >= 60.0,
        "Expected ≥60% token savings, got {:.1}% (input: {}, output: {})\nOutput: {}",
        savings,
        input_tokens,
        output_tokens,
        output
    );
}
