//! `snforge test`.
pub mod gas;
pub mod gas_laws;
pub mod run_laws;
pub mod summary;
pub mod table_laws;
pub mod test_laws;
pub mod test_output;
pub mod tick_laws;
pub mod view_laws;

pub use test_output::{filter_snforge_test, filter_snforge_test_checked};

use crate::invocation;
use crate::invocation::{Invocation, Outcome, Passthrough};
use crate::text;
use vstd::prelude::*;
use vstd::string::*;

verus! {

/// An snforge subcommand whose output is shortened.
#[derive(Debug, Clone, Copy, PartialEq, Eq, Structural)]
pub enum SnforgeCommand {
    Test,
}

/// How `snforge` is run with a subcommand.
fn run_snforge_filtered(subcommand: &str, args: &[String], verbose: u8) -> (r: Invocation)
    ensures
        r@ == invocation::planned("snforge"@, subcommand@, text::views(args@), verbose),
{
    invocation::plan("snforge", subcommand, args, verbose)
}

/// How a subcommand is run with the given arguments.
pub fn run(cmd: SnforgeCommand, args: &[String], verbose: u8) -> (r: Invocation)
    ensures
        r@ == invocation::planned("snforge"@, "test"@, text::views(args@), verbose),
{
    match cmd {
        SnforgeCommand::Test => run_snforge_filtered("test", args, verbose),
    }
}

/// The names under which another subcommand is reported; `args` is how its arguments are shown.
pub fn run_passthrough(args: &str) -> (r: Passthrough)
    ensures
        r.names("snforge"@, args@),
{
    Passthrough::new("snforge", args)
}

/// What becomes of what a subcommand printed; nothing where there is no compact view of it,
/// which is where the totals of test results cannot be held.
pub fn conclude(
    cmd: SnforgeCommand,
    stdout: &str,
    stderr: &str,
    code: Option<i32>,
    success: bool,
) -> (r: Option<Outcome>)
    ensures
        r is Some <==> test_output::countable(
            test_output::run_model(invocation::raw_text(stdout@, stderr@)),
        ),
        r is Some ==> ({
            let raw = invocation::raw_text(stdout@, stderr@);
            let m = test_output::run_model(raw);
            r->0.concludes(
                raw,
                test_output::run_report(m, test_output::run_summary(m)),
                code,
                success,
            )
        }),
{
    let raw = invocation::raw_output(stdout, stderr);
    let filtered = match cmd {
        SnforgeCommand::Test => filter_snforge_test_checked(raw.as_str()),
    };
    match filtered {
        None => None,
        Some(filtered) => Some(Outcome::new(raw, filtered, code, success)),
    }
}

} // verus!
