use cairo_filters::snforge_cmd::filter_snforge_test;

fn count_tokens(text: &str) -> usize {
    text.split_whitespace().count()
}

// ── Success cases ────────────────────────────────────────────────────────

#[test]
fn test_filter_snforge_test_all_pass() {
    let input = r#"Collected 34 test(s) from falcon package
Running 10 test(s) from src/
[PASS] falcon::ntt::test_ntt (gas: ~12345)
[PASS] falcon::ntt::test_poly_mul (gas: ~98765)
Running 24 test(s) from tests/
[PASS] falcon::tests::test_integration_1 (gas: ~11111)
[PASS] falcon::tests::test_integration_2 (gas: ~22222)
Tests: 34 passed, 0 failed, 0 ignored, 0 filtered out

Tests summary: 34 passed, 0 failed, 0 ignored, 0 filtered out
"#;
    let result = filter_snforge_test(input);
    assert!(
        result.contains("✓ snforge test"),
        "should show success: {}",
        result
    );
    assert!(
        result.contains("34 passed"),
        "should show passed count: {}",
        result
    );
    assert!(
        !result.contains("[PASS]"),
        "should strip [PASS] lines: {}",
        result
    );
    assert!(
        !result.contains("Running"),
        "should strip Running lines: {}",
        result
    );
}

#[test]
fn test_filter_snforge_test_multi_package() {
    let input = r#"Collected 10 test(s) from falcon package
Running 10 test(s) from src/
[PASS] falcon::test_a (gas: ~100)
Tests: 10 passed, 0 failed, 0 ignored, 0 filtered out

Collected 24 test(s) from falcon_account package
Running 24 test(s) from src/
[PASS] falcon_account::test_x (gas: ~200)
Tests: 24 passed, 0 failed, 0 ignored, 0 filtered out

Tests summary: 34 passed, 0 failed, 0 ignored, 0 filtered out
"#;
    let result = filter_snforge_test(input);
    assert!(
        result.contains("✓ snforge test"),
        "should show success: {}",
        result
    );
    assert!(
        result.contains("34 passed"),
        "should aggregate passed: {}",
        result
    );
    assert!(
        result.contains("2 package"),
        "should show package count: {}",
        result
    );
}

#[test]
fn test_filter_snforge_test_with_ignored() {
    let input = r#"Collected 10 test(s) from falcon package
Running 10 test(s) from src/
[PASS] falcon::test_a (gas: ~100)
[IGNORED] falcon::test_skip
Tests: 9 passed, 0 failed, 1 ignored, 0 filtered out

Tests summary: 9 passed, 0 failed, 1 ignored, 0 filtered out
"#;
    let result = filter_snforge_test(input);
    assert!(
        result.contains("✓ snforge test"),
        "should show success: {}",
        result
    );
    assert!(
        result.contains("1 ignored"),
        "should show ignored count: {}",
        result
    );
    assert!(
        !result.contains("[IGNORED]"),
        "should strip [IGNORED] lines: {}",
        result
    );
}

// ── Failure cases ────────────────────────────────────────────────────────

#[test]
fn test_filter_snforge_test_with_failures() {
    let input = r#"Collected 20 test(s) from falcon package
Running 20 test(s) from src/
[PASS] falcon::test_good (gas: ~100)
[FAIL] falcon::some_module::test_name

Failure data:
    "expected 5 got 3"

Tests: 19 passed, 1 failed, 0 ignored, 0 filtered out

Tests summary: 33 passed, 1 failed, 0 ignored, 0 filtered out
"#;
    let result = filter_snforge_test(input);
    assert!(
        result.contains("[FAIL]"),
        "should show [FAIL] line: {}",
        result
    );
    assert!(
        result.contains("Failure data:"),
        "should show Failure data: {}",
        result
    );
    assert!(
        result.contains("expected 5 got 3"),
        "should show failure message: {}",
        result
    );
    assert!(
        result.contains("Tests summary:"),
        "should show summary: {}",
        result
    );
    assert!(
        !result.contains("[PASS]"),
        "should not show [PASS] lines: {}",
        result
    );
}

// ── Noise stripping ───────────────────────────────────────────────────────

#[test]
fn test_filter_snforge_test_strips_compilation_noise() {
    let input = r#"Blocking waiting for file lock on package cache
   Compiling snforge_scarb_plugin v0.55.0 (git+https://github.com/foundry-rs/starknet-foundry)
   Compiling falcon v0.1.0 (/path/Scarb.toml)
    Finished `release` profile [optimized] target(s) in 45s
Collected 5 test(s) from falcon package
Running 5 test(s) from src/
[PASS] falcon::test_a (gas: ~100)
Tests: 5 passed, 0 failed, 0 ignored, 0 filtered out

Tests summary: 5 passed, 0 failed, 0 ignored, 0 filtered out
"#;
    let result = filter_snforge_test(input);
    assert!(
        !result.contains("Compiling"),
        "should strip Compiling: {}",
        result
    );
    assert!(
        !result.contains("Blocking"),
        "should strip Blocking: {}",
        result
    );
    assert!(
        !result.contains("Finished"),
        "should strip Finished: {}",
        result
    );
    assert!(
        result.contains("✓ snforge test"),
        "should show success: {}",
        result
    );
}

#[test]
fn test_filter_snforge_test_strips_pass_lines() {
    let input = r#"Collected 3 test(s) from falcon package
Running 3 test(s) from src/
[PASS] falcon::test_1 (gas: ~100)
[PASS] falcon::test_2 (gas: ~200)
[PASS] falcon::test_3 (gas: ~300)
Tests: 3 passed, 0 failed, 0 ignored, 0 filtered out

Tests summary: 3 passed, 0 failed, 0 ignored, 0 filtered out
"#;
    let result = filter_snforge_test(input);
    assert!(
        !result.contains("[PASS]"),
        "should strip [PASS] lines: {}",
        result
    );
    assert!(
        result.contains("✓ snforge test: 3 passed"),
        "should show compact summary: {}",
        result
    );
}

#[test]
fn test_filter_snforge_test_strips_running_lines() {
    let input = r#"Collected 5 test(s) from falcon package
Running 3 test(s) from src/
[PASS] falcon::test_a (gas: ~100)
Running 2 test(s) from tests/
[PASS] falcon::integration::test_b (gas: ~200)
Tests: 5 passed, 0 failed, 0 ignored, 0 filtered out

Tests summary: 5 passed, 0 failed, 0 ignored, 0 filtered out
"#;
    let result = filter_snforge_test(input);
    assert!(
        !result.contains("Running "),
        "should strip Running lines: {}",
        result
    );
    assert!(
        result.contains("✓ snforge test"),
        "should show success: {}",
        result
    );
}

#[test]
fn test_filter_snforge_test_strips_compiler_warnings() {
    let input = r#"   Compiling falcon v0.1.0 (/path/Scarb.toml)
warn[E0001]: Unused variable. Consider ignoring by prefixing with `_`.
 --> /home/user/packages/falcon/src/lib.cairo:42:9
    let unused_var = 5;
        ^^^^^^^^^^
    Finished `dev` profile target(s) in 10s
Collected 2 test(s) from falcon package
Running 2 test(s) from src/
[PASS] falcon::test_ok (gas: ~100)
Tests: 2 passed, 0 failed, 0 ignored, 0 filtered out

Tests summary: 2 passed, 0 failed, 0 ignored, 0 filtered out
"#;
    let result = filter_snforge_test(input);
    assert!(
        !result.contains("warn[E0001]"),
        "should strip compiler warnings: {}",
        result
    );
    assert!(
        !result.contains("Unused variable"),
        "should strip warning message: {}",
        result
    );
    assert!(
        !result.contains("-->"),
        "should strip code pointer: {}",
        result
    );
    assert!(
        result.contains("✓ snforge test"),
        "should show success: {}",
        result
    );
}

// ── Gas report compression ────────────────────────────────────────────────

#[test]
fn test_filter_snforge_test_compresses_gas_report_tables() {
    let input = r#"Collected 2 test(s) from falcon package
Running 2 test(s) from src/
[PASS] falcon::test_a (gas: ~100)
[PASS] falcon::test_b (gas: ~200)
Tests: 2 passed, 0 failed, 0 ignored, 0 filtered out

╭────────────────────────────────────────╮
│ Calls gas report                       │
├──────────────────────┬─────────────────┤
│ Contract             │ Function        │
╞══════════════════════╪═════════════════╡
│ ERC20                │ transfer        │
├──────────────────────┼─────────────────┤
│                      │ min: 1234       │
│                      │ max: 5678       │
│                      │ mean: 2345      │
│                      │ median: 2100    │
╰──────────────────────┴─────────────────╯

Tests summary: 2 passed, 0 failed, 0 ignored, 0 filtered out
"#;
    let result = filter_snforge_test(input);
    // No raw ASCII art
    assert!(
        !result.contains('╭'),
        "should strip gas report table top border: {}",
        result
    );
    assert!(
        !result.contains('╰'),
        "should strip gas report table bottom border: {}",
        result
    );
    assert!(
        !result.contains('│'),
        "should strip gas report table borders: {}",
        result
    );
    // Compressed contract data is shown
    assert!(
        result.contains("ERC20::transfer"),
        "should show contract::function: {}",
        result
    );
    assert!(
        result.contains("min:1234"),
        "should show min stat: {}",
        result
    );
    assert!(
        result.contains("max:5678"),
        "should show max stat: {}",
        result
    );
    assert!(
        result.contains("✓ snforge test"),
        "should show success: {}",
        result
    );
}

// ── Detailed resources compression ────────────────────────────────────────

#[test]
fn test_filter_snforge_test_compresses_extended_pass_gas() {
    // Real format from `snforge test --detailed-resources`
    let input = r#"Collected 2 test(s) from falcon package
Running 2 test(s) from tests/
[PASS] falcon::test_hash_to_point (l1_gas: ~0, l1_data_gas: ~0, l2_gas: ~809044)
        sierra gas: 809044
        syscalls: ()

[PASS] falcon::test_packing (l1_gas: ~0, l1_data_gas: ~0, l2_gas: ~7330020)
        sierra gas: 7330020
        syscalls: ()

Tests: 2 passed, 0 failed, 0 ignored, 0 filtered out

Tests summary: 2 passed, 0 failed, 0 ignored, 0 filtered out
"#;
    let result = filter_snforge_test(input);
    // Test names are shown (compressed [PASS] kept)
    assert!(
        result.contains("test_hash_to_point"),
        "should show test name: {}",
        result
    );
    assert!(
        result.contains("test_packing"),
        "should show test name: {}",
        result
    );
    // l2 gas shown compressed
    assert!(
        result.contains("l2:~809044"),
        "should compress l2 gas: {}",
        result
    );
    // Zero l1 values stripped
    assert!(
        !result.contains("l1_gas:"),
        "should strip zero l1_gas: {}",
        result
    );
    assert!(
        !result.contains("l1_data_gas:"),
        "should strip zero l1_data_gas: {}",
        result
    );
    // sierra gas stripped (redundant)
    assert!(
        !result.contains("sierra gas:"),
        "should strip redundant sierra gas: {}",
        result
    );
    // Empty syscalls stripped
    assert!(
        !result.contains("syscalls:"),
        "should strip empty syscalls: {}",
        result
    );
    // Compact summary still shown
    assert!(
        result.contains("✓ snforge test"),
        "should show success: {}",
        result
    );
}

#[test]
fn test_filter_snforge_test_compresses_non_empty_syscalls() {
    let input = r#"Collected 1 test(s) from falcon package
Running 1 test(s) from tests/
[PASS] falcon::test_contract_call (l1_gas: ~0, l1_data_gas: ~0, l2_gas: ~200000)
        sierra gas: 200000
        syscalls: call_contract: 2, deploy: 1
        builtins: range_check: 100

Tests: 1 passed, 0 failed, 0 ignored, 0 filtered out

Tests summary: 1 passed, 0 failed, 0 ignored, 0 filtered out
"#;
    let result = filter_snforge_test(input);
    // Non-empty syscalls compressed
    assert!(
        result.contains("syscalls:call_contract:2,deploy:1"),
        "should compress non-empty syscalls: {}",
        result
    );
    // Non-empty builtins compressed
    assert!(
        result.contains("builtins:range_check:100"),
        "should compress non-empty builtins: {}",
        result
    );
    // sierra gas still stripped
    assert!(
        !result.contains("sierra gas:"),
        "should strip sierra gas: {}",
        result
    );
}

#[test]
fn test_filter_snforge_test_strips_no_contract_gas_message() {
    // Format from `snforge test --gas-report` when no contract calls
    let input = r#"Collected 3 test(s) from falcon package
Running 3 test(s) from src/
[PASS] falcon::test_1 (l1_gas: ~0, l1_data_gas: ~0, l2_gas: ~161320)
No contract gas usage data to display, no contract calls made.

[PASS] falcon::test_2 (l1_gas: ~0, l1_data_gas: ~0, l2_gas: ~428100)
No contract gas usage data to display, no contract calls made.

[PASS] falcon::test_3 (l1_gas: ~0, l1_data_gas: ~0, l2_gas: ~1058800)
No contract gas usage data to display, no contract calls made.

Tests: 3 passed, 0 failed, 0 ignored, 0 filtered out

Tests summary: 3 passed, 0 failed, 0 ignored, 0 filtered out
"#;
    let result = filter_snforge_test(input);
    assert!(
        !result.contains("No contract gas usage data"),
        "should strip no-contract-gas message: {}",
        result
    );
    assert!(
        result.contains("l2:~161320"),
        "should compress l2 gas: {}",
        result
    );
    assert!(
        result.contains("✓ snforge test"),
        "should show success: {}",
        result
    );
}

// ── Edge cases ────────────────────────────────────────────────────────────

#[test]
fn test_filter_snforge_test_empty_input() {
    let result = filter_snforge_test("");
    assert!(result.is_empty() || result.len() < 100);
}

// ── Token savings ─────────────────────────────────────────────────────────

#[test]
fn test_filter_snforge_test_token_savings() {
    // Realistic snforge output with many passing tests and compilation noise
    let input = r#"Blocking waiting for file lock on package cache
   Compiling snforge_scarb_plugin v0.55.0 (git+https://github.com/foundry-rs/starknet-foundry)
   Compiling falcon v0.1.0 (/path/Scarb.toml)
   Compiling falcon_account v0.1.0 (/path/Scarb.toml)
   Compiling falcon_old v0.1.0 (/path/Scarb.toml)
    Finished `release` profile [optimized] target(s) in 45s
Collected 10 test(s) from falcon package
Running 6 test(s) from src/
[PASS] falcon::ntt::test_ntt_forward (gas: ~123456)
[PASS] falcon::ntt::test_ntt_inverse (gas: ~234567)
[PASS] falcon::ntt::test_ntt_roundtrip (gas: ~345678)
[PASS] falcon::poly::test_poly_mul (gas: ~456789)
[PASS] falcon::poly::test_poly_add (gas: ~567890)
[PASS] falcon::poly::test_poly_sub (gas: ~678901)
Running 4 test(s) from tests/
[PASS] falcon::tests::test_sign_verify (gas: ~789012)
[PASS] falcon::tests::test_keygen (gas: ~890123)
[PASS] falcon::tests::test_hash_to_point (gas: ~901234)
[PASS] falcon::tests::test_compress (gas: ~112345)
Tests: 10 passed, 0 failed, 0 ignored, 0 filtered out

Collected 8 test(s) from falcon_account package
Running 8 test(s) from src/
[PASS] falcon_account::tests::test_validate_sig (gas: ~223456)
[PASS] falcon_account::tests::test_execute (gas: ~334567)
[PASS] falcon_account::tests::test_multicall (gas: ~445678)
[PASS] falcon_account::tests::test_upgrade (gas: ~556789)
[PASS] falcon_account::tests::test_declare (gas: ~667890)
[PASS] falcon_account::tests::test_deploy (gas: ~778901)
[PASS] falcon_account::tests::test_transfer (gas: ~889012)
[PASS] falcon_account::tests::test_approve (gas: ~990123)
Tests: 8 passed, 0 failed, 0 ignored, 0 filtered out

Collected 16 test(s) from falcon_old package
Running 16 test(s) from src/
[PASS] falcon_old::ntt::test_old_ntt_1 (gas: ~111111)
[PASS] falcon_old::ntt::test_old_ntt_2 (gas: ~222222)
[PASS] falcon_old::ntt::test_old_ntt_3 (gas: ~333333)
[PASS] falcon_old::ntt::test_old_ntt_4 (gas: ~444444)
[PASS] falcon_old::ntt::test_old_ntt_5 (gas: ~555555)
[PASS] falcon_old::ntt::test_old_ntt_6 (gas: ~666666)
[PASS] falcon_old::ntt::test_old_ntt_7 (gas: ~777777)
[PASS] falcon_old::ntt::test_old_ntt_8 (gas: ~888888)
[PASS] falcon_old::poly::test_old_poly_1 (gas: ~999999)
[PASS] falcon_old::poly::test_old_poly_2 (gas: ~101010)
[PASS] falcon_old::poly::test_old_poly_3 (gas: ~202020)
[PASS] falcon_old::poly::test_old_poly_4 (gas: ~303030)
[PASS] falcon_old::poly::test_old_poly_5 (gas: ~404040)
[PASS] falcon_old::poly::test_old_poly_6 (gas: ~505050)
[PASS] falcon_old::poly::test_old_poly_7 (gas: ~606060)
[PASS] falcon_old::poly::test_old_poly_8 (gas: ~707070)
Tests: 16 passed, 0 failed, 0 ignored, 0 filtered out

Tests summary: 34 passed, 0 failed, 0 ignored, 0 filtered out
"#;
    let output = filter_snforge_test(input);
    let input_tokens = count_tokens(input);
    let output_tokens = count_tokens(&output);
    let savings = 100.0 - (output_tokens as f64 / input_tokens as f64 * 100.0);
    assert!(
        savings >= 60.0,
        "Expected ≥60% token savings, got {:.1}% (input: {}, output: {})\nOutput: {}",
        savings,
        input_tokens,
        output_tokens,
        output
    );
}
