//! What is run, and what becomes of what it prints.
use crate::strings;
use crate::text;
use vstd::prelude::*;
use vstd::string::*;

verus! {

/// A tool that is to be run, and the names under which its run is reported.
#[verifier::ext_equal]
pub struct InvocationModel {
    pub program: Seq<char>,
    pub args: Seq<Seq<char>>,
    pub announcement: Option<Seq<char>>,
    pub failure: Seq<char>,
    pub tee_label: Seq<char>,
    pub full_command: Seq<char>,
    pub short_command: Seq<char>,
}

/// A tool that is to be run, and the names under which its run is reported.
#[derive(Debug)]
pub struct Invocation {
    /// The program.
    pub program: String,
    /// Its arguments.
    pub args: Vec<String>,
    /// What is said before it runs, if anything.
    pub announcement: Option<String>,
    /// What is said where it cannot be run.
    pub failure: String,
    /// The name under which its whole output is kept.
    pub tee_label: String,
    /// The command whose output is shortened.
    pub full_command: String,
    /// The command that shortens it.
    pub short_command: String,
}

impl View for Invocation {
    type V = InvocationModel;

    open spec fn view(&self) -> InvocationModel {
        InvocationModel {
            program: self.program@,
            args: text::views(self.args@),
            announcement: text::opt_view(self.announcement),
            failure: self.failure@,
            tee_label: self.tee_label@,
            full_command: self.full_command@,
            short_command: self.short_command@,
        }
    }
}

/// A program, its subcommand and its arguments, with a space before each next.
pub open spec fn command_line(
    program: Seq<char>,
    subcommand: Seq<char>,
    args: Seq<Seq<char>>,
) -> Seq<char> {
    program + " "@ + subcommand + " "@ + text::joined(args, " "@)
}

/// How a program is run with a subcommand and arguments.
pub open spec fn planned(
    program: Seq<char>,
    subcommand: Seq<char>,
    args: Seq<Seq<char>>,
    verbose: u8,
) -> InvocationModel {
    let line = command_line(program, subcommand, args);
    InvocationModel {
        program,
        args: seq![subcommand] + args,
        announcement: if verbose > 0 {
            Some("Running: "@ + line)
        } else {
            None
        },
        failure: "Failed to run "@ + program + " "@ + subcommand,
        tee_label: program + "_"@ + subcommand,
        full_command: line,
        short_command: "rtk "@ + line,
    }
}

/// How a program is run with a subcommand and arguments.
pub(crate) fn plan(program: &str, subcommand: &str, args: &[String], verbose: u8) -> (r: Invocation)
    ensures
        r@ == planned(program@, subcommand@, text::views(args@), verbose),
{
    let joined = strings::join(args, " ");
    let mut line: String = program.to_owned();
    line.append(" ");
    line.append(subcommand);
    line.append(" ");
    line.append(joined.as_str());
    let mut running: String = "Running: ".to_owned();
    running.append(line.as_str());
    let mut failure: String = "Failed to run ".to_owned();
    failure.append(program);
    failure.append(" ");
    failure.append(subcommand);
    let mut tee_label: String = program.to_owned();
    tee_label.append("_");
    tee_label.append(subcommand);
    let mut short_command: String = "rtk ".to_owned();
    short_command.append(line.as_str());
    let ghost all = seq![subcommand@] + text::views(args@);
    let mut all_args: Vec<String> = Vec::new();
    all_args.push(subcommand.to_owned());
    let mut i: usize = 0;
    while i < args.len()
        invariant
            i <= args.len(),
            all == seq![subcommand@] + text::views(args@),
            text::views(all_args@) == all.take(i + 1),
        decreases args.len() - i,
    {
        let ghost before = text::views(all_args@);
        all_args.push(args[i].clone());
        assert(text::views(all_args@) == before.push(args@[i as int]@));
        assert(all.take(i + 2) == before.push(args@[i as int]@));
        i = i + 1;
    }
    assert(all.take(i + 1) == all);
    Invocation {
        program: program.to_owned(),
        args: all_args,
        announcement: if verbose > 0 {
            Some(running)
        } else {
            None
        },
        failure,
        tee_label,
        full_command: line,
        short_command,
    }
}

/// Everything that a program printed: its standard output, then its standard error.
pub open spec fn raw_text(stdout: Seq<char>, stderr: Seq<char>) -> Seq<char> {
    stdout + "\n"@ + stderr
}

/// Everything that a program printed.
pub(crate) fn raw_output(stdout: &str, stderr: &str) -> (r: String)
    ensures
        r@ == raw_text(stdout@, stderr@),
{
    let mut raw: String = stdout.to_owned();
    raw.append("\n");
    raw.append(stderr);
    raw
}

/// The code that a program ended with. One that a signal ended has none: it counts as zero
/// where the program succeeded and as one where it did not.
pub open spec fn code_or_status(code: Option<i32>, success: bool) -> i32 {
    match code {
        Some(code) => code,
        None => if success {
            0
        } else {
            1
        },
    }
}

/// The code that a program ended with.
pub fn exit_code(code: Option<i32>, success: bool) -> (r: i32)
    ensures
        r == code_or_status(code, success),
{
    match code {
        Some(code) => code,
        None => if success {
            0
        } else {
            1
        },
    }
}

/// What becomes of what a program printed.
#[derive(Debug)]
pub struct Outcome {
    /// Everything that it printed.
    pub raw: String,
    /// The compact view of it.
    pub filtered: String,
    /// The code that it ended with.
    pub exit_code: i32,
    /// The code to exit with; none where the program succeeded.
    pub exit: Option<i32>,
}

impl Outcome {
    /// Whether this is the outcome of a program that printed `raw`, of which `filtered` is the
    /// compact view, and ended with `code` or by a signal.
    pub open spec fn concludes(
        self,
        raw: Seq<char>,
        filtered: Seq<char>,
        code: Option<i32>,
        success: bool,
    ) -> bool {
        &&& self.raw@ == raw
        &&& self.filtered@ == filtered
        &&& self.exit_code == code_or_status(code, success)
        &&& self.exit == (if success {
            None
        } else {
            Some(code_or_status(code, success))
        })
    }

    /// The outcome of a program that printed `raw`.
    pub(crate) fn new(raw: String, filtered: String, code: Option<i32>, success: bool) -> (r:
        Outcome)
        ensures
            r.concludes(raw@, filtered@, code, success),
    {
        let exit_code = exit_code(code, success);
        Outcome {
            raw,
            filtered,
            exit_code,
            exit: if success {
                None
            } else {
                Some(exit_code)
            },
        }
    }

    /// What is shown: the compact view and, where there is one, the hint on its own line.
    pub fn shown(&self, hint: Option<&str>) -> (r: String)
        ensures
            r@ == (match hint {
                None => self.filtered@,
                Some(hint) => self.filtered@ + "\n"@ + hint@,
            }),
    {
        let mut out: String = self.filtered.clone();
        if let Some(hint) = hint {
            out.append("\n");
            out.append(hint);
        }
        out
    }
}

/// The names under which a run is reported whose output is passed on as it is.
#[derive(Debug)]
pub struct Passthrough {
    /// What is said where the program cannot be run.
    pub failure: String,
    /// The command.
    pub full_command: String,
    /// The command that passes its output on.
    pub short_command: String,
}

impl Passthrough {
    /// Whether these are the names for `program` with arguments that are shown as `args`.
    pub open spec fn names(self, program: Seq<char>, args: Seq<char>) -> bool {
        &&& self.failure@ == "Failed to run "@ + program
        &&& self.full_command@ == program + " "@ + args
        &&& self.short_command@ == "rtk "@ + program + " "@ + args + " (passthrough)"@
    }

    /// The names for `program` with arguments that are shown as `args`.
    pub(crate) fn new(program: &str, args: &str) -> (r: Passthrough)
        ensures
            r.names(program@, args@),
    {
        let mut failure: String = "Failed to run ".to_owned();
        failure.append(program);
        let mut full_command: String = program.to_owned();
        full_command.append(" ");
        full_command.append(args);
        let mut short_command: String = "rtk ".to_owned();
        short_command.append(program);
        short_command.append(" ");
        short_command.append(args);
        short_command.append(" (passthrough)");
        Passthrough { failure, full_command, short_command }
    }
}

/// The code to exit with once a program whose output was passed on has ended; none where it
/// succeeded.
pub fn passthrough_exit(code: Option<i32>, success: bool) -> (r: Option<i32>)
    ensures
        r == (if success {
            None::<i32>
        } else {
            Some(code_or_status(code, false))
        }),
{
    if success {
        None
    } else {
        Some(exit_code(code, false))
    }
}

} // verus!
