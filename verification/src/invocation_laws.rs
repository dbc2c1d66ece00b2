//! How a tool is run, under which names, and what its end means.
use crate::containment;
use crate::invocation;
use crate::invocation::{Outcome, Passthrough};
use crate::scarb_cmd;
use crate::scarb_cmd::ScarbCommand;
use crate::text;
use vstd::prelude::*;

verus! {

/// The program gets the subcommand and then each argument, in order. Every name of the run is made
/// of the program and the subcommand, and those that show the command also of the arguments.
pub proof fn law_names(
    program: Seq<char>,
    subcommand: Seq<char>,
    args: Seq<Seq<char>>,
    verbose: u8,
)
    ensures
        ({
            let p = invocation::planned(program, subcommand, args, verbose);
            &&& p.program == program
            &&& p.args.len() == args.len() + 1
            &&& p.args[0] == subcommand
            &&& forall|i: int| 0 <= i < args.len() ==> p.args[i + 1] == #[trigger] args[i]
            &&& p.failure == "Failed to run "@ + program + " "@ + subcommand
            &&& p.tee_label == program + "_"@ + subcommand
            &&& p.short_command == "rtk "@ + p.full_command
            &&& p.announcement == (if verbose == 0 {
                None
            } else {
                Some("Running: "@ + p.full_command)
            })
        }),
{
}

/// The command is shown with a space before each argument; without arguments it ends in a space.
pub proof fn law_command_shown(
    program: Seq<char>,
    subcommand: Seq<char>,
    args: Seq<Seq<char>>,
    arg: Seq<char>,
    verbose: u8,
)
    ensures
        invocation::planned(program, subcommand, seq![], verbose).full_command == program + " "@
            + subcommand + " "@,
        ({
            let p = invocation::planned(program, subcommand, args, verbose);
            let q = invocation::planned(program, subcommand, args.push(arg), verbose);
            q.full_command == p.full_command + (if args.len() == 0 {
                seq![]
            } else {
                " "@
            }) + arg
        }),
{
    let p = invocation::planned(program, subcommand, args, verbose);
    let q = invocation::planned(program, subcommand, args.push(arg), verbose);
    let none = Seq::<Seq<char>>::empty();
    assert(text::joined(none, " "@) =~= Seq::<char>::empty());
    assert(invocation::planned(program, subcommand, none, verbose).full_command =~= program + " "@
        + subcommand + " "@);
    if args.len() == 0 {
        assert(args =~= none);
        assert(args.push(arg) =~= seq![arg]);
        assert(text::joined(seq![arg], " "@) == arg);
        assert(q.full_command =~= p.full_command + seq![] + arg);
    } else {
        containment::lemma_joined_push(args, arg, " "@);
        assert(q.full_command =~= p.full_command + " "@ + arg);
    }
}

/// A code that a program ended with is kept, whatever it is. Where there is none, success counts
/// as zero and anything else as one. A program that succeeded is never an occasion to exit.
pub proof fn law_exit_codes(outcome: Outcome, raw: Seq<char>, filtered: Seq<char>, code: i32)
    ensures
        forall|success: bool| #[trigger] invocation::code_or_status(Some(code), success) == code,
        invocation::code_or_status(None, true) == 0,
        invocation::code_or_status(None, false) == 1,
        outcome.concludes(raw, filtered, Some(code), true) ==> outcome.exit is None
            && outcome.exit_code == code,
        outcome.concludes(raw, filtered, Some(code), false) ==> outcome.exit == Some(code)
            && outcome.exit_code == code,
        outcome.concludes(raw, filtered, None, true) ==> outcome.exit is None && outcome.exit_code
            == 0,
        outcome.concludes(raw, filtered, None, false) ==> outcome.exit == Some(1i32)
            && outcome.exit_code == 1,
{
}

/// Everything that a program printed stands in the raw text: its standard output, a line feed, and
/// its standard error.
pub proof fn law_raw_text(stdout: Seq<char>, stderr: Seq<char>)
    ensures
        ({
            let raw = invocation::raw_text(stdout, stderr);
            let n = stdout.len() as int;
            &&& raw.len() == n + 1 + stderr.len()
            &&& raw.take(n) == stdout
            &&& raw[n] == '\n'
            &&& raw.skip(n + 1) == stderr
        }),
{
    reveal_strlit("\n");
    let raw = invocation::raw_text(stdout, stderr);
    let n = stdout.len() as int;
    assert(raw.take(n) =~= stdout);
    assert(raw.skip(n + 1) =~= stderr);
}

/// What is checked is shown as what is built.
pub proof fn law_check_is_shown_as_build(raw: Seq<char>)
    ensures
        scarb_cmd::compact_view(ScarbCommand::Check, raw) == scarb_cmd::compact_view(
            ScarbCommand::Build,
            raw,
        ),
        scarb_cmd::viewable(ScarbCommand::Check, raw),
        scarb_cmd::viewable(ScarbCommand::Build, raw),
{
}

/// The names of a run whose output is passed on are made of the program and its arguments.
pub proof fn law_passthrough_names(p: Passthrough, program: Seq<char>, args: Seq<char>)
    requires
        p.names(program, args),
    ensures
        p.failure@ == "Failed to run "@ + program,
        p.full_command@ == program + " "@ + args,
        p.short_command@ == "rtk "@ + p.full_command@ + " (passthrough)"@,
{
    assert("rtk "@ + (program + " "@ + args) + " (passthrough)"@ =~= "rtk "@ + program + " "@ + args
        + " (passthrough)"@);
}

} // verus!
