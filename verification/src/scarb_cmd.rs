//! `scarb build`, `scarb check` and `scarb test`.
pub mod block_laws;
pub mod build_laws;
pub mod build_output;
pub mod noise;
pub mod section_laws;
pub mod test_laws;
pub mod test_output;

pub use build_output::filter_scarb_build;
pub use test_output::{filter_scarb_test, filter_scarb_test_checked};

use crate::invocation;
use crate::invocation::{Invocation, Outcome, Passthrough};
use crate::text;
use vstd::prelude::*;
use vstd::string::*;

verus! {

/// A scarb subcommand whose output is shortened.
#[derive(Debug, Clone, Copy, PartialEq, Eq, Structural)]
pub enum ScarbCommand {
    Build,
    Test,
    Check,
}

/// The name of a subcommand.
pub open spec fn subcommand(cmd: ScarbCommand) -> Seq<char> {
    match cmd {
        ScarbCommand::Build => "build"@,
        ScarbCommand::Test => "test"@,
        ScarbCommand::Check => "check"@,
    }
}

/// How `scarb` is run with a subcommand.
fn run_scarb_filtered(subcommand: &str, args: &[String], verbose: u8) -> (r: Invocation)
    ensures
        r@ == invocation::planned("scarb"@, subcommand@, text::views(args@), verbose),
{
    invocation::plan("scarb", subcommand, args, verbose)
}

/// How `scarb build` is run.
fn run_build(args: &[String], verbose: u8) -> (r: Invocation)
    ensures
        r@ == invocation::planned("scarb"@, "build"@, text::views(args@), verbose),
{
    run_scarb_filtered("build", args, verbose)
}

/// How `scarb test` is run.
fn run_test(args: &[String], verbose: u8) -> (r: Invocation)
    ensures
        r@ == invocation::planned("scarb"@, "test"@, text::views(args@), verbose),
{
    run_scarb_filtered("test", args, verbose)
}

/// How `scarb check` is run.
fn run_check(args: &[String], verbose: u8) -> (r: Invocation)
    ensures
        r@ == invocation::planned("scarb"@, "check"@, text::views(args@), verbose),
{
    run_scarb_filtered("check", args, verbose)
}

/// How a subcommand is run with the given arguments.
pub fn run(cmd: ScarbCommand, args: &[String], verbose: u8) -> (r: Invocation)
    ensures
        r@ == invocation::planned("scarb"@, subcommand(cmd), text::views(args@), verbose),
{
    match cmd {
        ScarbCommand::Build => run_build(args, verbose),
        ScarbCommand::Test => run_test(args, verbose),
        ScarbCommand::Check => run_check(args, verbose),
    }
}

/// The names under which another subcommand is reported; `args` is how its arguments are shown.
pub fn run_passthrough(args: &str) -> (r: Passthrough)
    ensures
        r.names("scarb"@, args@),
{
    Passthrough::new("scarb", args)
}

/// Whether the output of a subcommand has a compact view: the totals of test results must be
/// such that they can be held.
pub open spec fn viewable(cmd: ScarbCommand, raw: Seq<char>) -> bool {
    cmd is Test ==> test_output::countable(
        test_output::test_model(raw),
        test_output::summary_results(test_output::test_model(raw)),
    )
}

/// The compact view of the output of a subcommand.
pub open spec fn compact_view(cmd: ScarbCommand, raw: Seq<char>) -> Seq<char> {
    match cmd {
        ScarbCommand::Build | ScarbCommand::Check => build_output::build_report(
            build_output::build_model(raw),
        ),
        ScarbCommand::Test => test_output::test_report(
            raw,
            test_output::test_model(raw),
            test_output::summary_results(test_output::test_model(raw)),
        ),
    }
}

/// What becomes of what a subcommand printed; nothing where there is no compact view of it.
pub fn conclude(
    cmd: ScarbCommand,
    stdout: &str,
    stderr: &str,
    code: Option<i32>,
    success: bool,
) -> (r: Option<Outcome>)
    ensures
        r is Some <==> viewable(cmd, invocation::raw_text(stdout@, stderr@)),
        r is Some ==> r->0.concludes(
            invocation::raw_text(stdout@, stderr@),
            compact_view(cmd, invocation::raw_text(stdout@, stderr@)),
            code,
            success,
        ),
{
    let raw = invocation::raw_output(stdout, stderr);
    let filtered = match cmd {
        ScarbCommand::Build | ScarbCommand::Check => Some(filter_scarb_build(raw.as_str())),
        ScarbCommand::Test => filter_scarb_test_checked(raw.as_str()),
    };
    match filtered {
        None => None,
        Some(filtered) => Some(Outcome::new(raw, filtered, code, success)),
    }
}

} // verus!
