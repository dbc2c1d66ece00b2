//! Warnings that scarb prints about itself, and the lines that belong to them.
use crate::strings;
use crate::text;
use vstd::prelude::*;
use vstd::string::*;

verus! {

/// Whether `line` opens a warning about scarb itself, not about the user's code.
pub open spec fn noise_warn(line: Seq<char>) -> bool {
    ||| "warn: `scarb cairo-test` is deprecated"@.is_prefix_of(line)
    ||| "warn: `cairo_test` plugin not found"@.is_prefix_of(line)
    ||| "warn: artefacts produced by this build may be hard to utilize"@.is_prefix_of(line)
}

/// The output in which a warning stands: what may follow the warning depends on it.
#[derive(Debug, Clone, Copy, PartialEq, Eq, Structural)]
pub enum Stage {
    /// `scarb build` or `scarb check`.
    Build,
    /// `scarb test`.
    Test,
}

/// Whether `line` stands outside the warning that the lines before it belong to.
pub open spec fn ends_noise(stage: Stage, line: Seq<char>) -> bool {
    let start = text::trimmed_start(line);
    ||| text::blank(line)
    ||| "warn"@.is_prefix_of(line)
    ||| "error"@.is_prefix_of(line)
    ||| "Compiling"@.is_prefix_of(start)
    ||| match stage {
        Stage::Build => "Checking"@.is_prefix_of(start) || "Finished"@.is_prefix_of(start),
        Stage::Test => "Blocking"@.is_prefix_of(start) || "running"@.is_prefix_of(line),
    }
}

/// The first position from `i` on whose line ends a warning; the number of lines where none does.
pub open spec fn noise_end(stage: Stage, lines: Seq<Seq<char>>, i: int) -> int
    decreases lines.len() - i,
{
    if i >= lines.len() || ends_noise(stage, lines[i]) {
        i
    } else {
        noise_end(stage, lines, i + 1)
    }
}

/// The end of a warning lies between where the search starts and the end of the output.
pub proof fn lemma_noise_end(stage: Stage, lines: Seq<Seq<char>>, i: int)
    requires
        i <= lines.len(),
    ensures
        i <= noise_end(stage, lines, i) <= lines.len(),
        forall|k: int|
            i <= k < noise_end(stage, lines, i) ==> !ends_noise(stage, #[trigger] lines[k]),
    decreases lines.len() - i,
{
    if i >= lines.len() || ends_noise(stage, lines[i]) {
    } else {
        lemma_noise_end(stage, lines, i + 1);
    }
}

/// Known noise warning prefixes produced by scarb infrastructure (not user code).
pub fn is_noise_warn(line: &str) -> (r: bool)
    ensures
        r == noise_warn(line@),
{
    strings::starts_with(line, "warn: `scarb cairo-test` is deprecated") || strings::starts_with(
        line,
        "warn: `cairo_test` plugin not found",
    ) || strings::starts_with(line, "warn: artefacts produced by this build may be hard to utilize")
}

/// Whether `line` stands outside the warning that the lines before it belong to.
fn is_noise_end(stage: Stage, line: &str) -> (r: bool)
    ensures
        r == ends_noise(stage, line@),
{
    if strings::is_blank(line) || strings::starts_with(line, "warn") || strings::starts_with(
        line,
        "error",
    ) {
        return true;
    }
    let start = strings::trim_start(line);
    if strings::starts_with(start, "Compiling") {
        return true;
    }
    match stage {
        Stage::Build => strings::starts_with(start, "Checking") || strings::starts_with(
            start,
            "Finished",
        ),
        Stage::Test => strings::starts_with(start, "Blocking") || strings::starts_with(
            line,
            "running",
        ),
    }
}

/// The first position from `i` on whose line ends a warning.
pub fn skip_noise(stage: Stage, lines: &Vec<String>, i: usize) -> (r: usize)
    requires
        i <= lines.len(),
    ensures
        r == noise_end(stage, text::views(lines@), i as int),
        i <= r <= lines.len(),
{
    let mut k: usize = i;
    while k < lines.len() && !is_noise_end(stage, lines[k].as_str())
        invariant
            i <= k <= lines.len(),
            noise_end(stage, text::views(lines@), i as int) == noise_end(
                stage,
                text::views(lines@),
                k as int,
            ),
        decreases lines.len() - k,
    {
        k = k + 1;
    }
    k
}

} // verus!
