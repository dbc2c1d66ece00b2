//! What the view of a build keeps of the build's output.
use crate::containment;
use crate::number;
use crate::scarb_cmd::build_output;
use crate::scarb_cmd::build_output::{BuildLine, BuildModel, SHOWN_DIAGNOSTICS};
use crate::scarb_cmd::noise;
use crate::scarb_cmd::noise::Stage;
use crate::text;
use vstd::prelude::*;

verus! {

/// Whether a line begins a warning of scarb about itself.
pub open spec fn is_self_warning(line: Seq<char>) -> bool {
    ||| "warn: `scarb cairo-test` is deprecated"@.is_prefix_of(line)
    ||| "warn: `cairo_test` plugin not found"@.is_prefix_of(line)
    ||| "warn: artefacts produced by this build may be hard to utilize"@.is_prefix_of(line)
}

/// Whether the next line that is not blank, from `i` on, points into a source file.
pub open spec fn is_pointed(lines: Seq<Seq<char>>, i: int) -> bool {
    exists|j: int|
        {
            &&& i <= j < lines.len()
            &&& "-->"@.is_prefix_of(text::trimmed_start(#[trigger] lines[j]))
            &&& !text::blank(lines[j])
            &&& forall|k: int| i <= k < j ==> text::blank(#[trigger] lines[k])
        }
}

/// Whether the line at `i` begins an error, or a warning about the user's code: one with a code,
/// or one that a pointer into a source file follows.
pub open spec fn begins(lines: Seq<Seq<char>>, i: int, is_error: bool) -> bool {
    let line = lines[i];
    if is_error {
        &&& "error["@.is_prefix_of(line) || "error:"@.is_prefix_of(line)
        &&& !text::has_text(line, "aborting due to"@)
        &&& !text::has_text(line, "could not compile"@)
    } else {
        ||| "warn["@.is_prefix_of(line)
        ||| "warn: "@.is_prefix_of(line) && !is_self_warning(line) && is_pointed(lines, i + 1)
    }
}

/// Whether a line names a package that is compiled or checked.
pub open spec fn names_package(line: Seq<char>) -> bool {
    let start = text::trimmed_start(line);
    "Compiling"@.is_prefix_of(start) || "Checking"@.is_prefix_of(start)
}

pub proof fn lemma_prefix(p: Seq<char>, s: Seq<char>, j: int)
    requires
        p.is_prefix_of(s),
        0 <= j < p.len(),
    ensures
        p.len() <= s.len(),
        s[j] == p[j],
{
    assert(p[j] == s.subrange(0, p.len() as int)[j]);
}

proof fn lemma_pointed(lines: Seq<Seq<char>>, i: int)
    requires
        0 <= i <= lines.len(),
    ensures
        is_pointed(lines, i) == build_output::pointer_follows(lines, i),
    decreases lines.len() - i,
{
    if i < lines.len() {
        lemma_pointed(lines, i + 1);
        if text::blank(lines[i]) {
            if is_pointed(lines, i) {
                let j = choose|j: int|
                    {
                        &&& i <= j < lines.len()
                        &&& "-->"@.is_prefix_of(text::trimmed_start(#[trigger] lines[j]))
                        &&& !text::blank(lines[j])
                        &&& forall|k: int| i <= k < j ==> text::blank(#[trigger] lines[k])
                    };
                assert("-->"@.is_prefix_of(text::trimmed_start(lines[j])));
                assert(is_pointed(lines, i + 1));
            }
            if is_pointed(lines, i + 1) {
                let j = choose|j: int|
                    {
                        &&& i + 1 <= j < lines.len()
                        &&& "-->"@.is_prefix_of(text::trimmed_start(#[trigger] lines[j]))
                        &&& !text::blank(lines[j])
                        &&& forall|k: int| i + 1 <= k < j ==> text::blank(#[trigger] lines[k])
                    };
                assert("-->"@.is_prefix_of(text::trimmed_start(lines[j])));
                assert(is_pointed(lines, i));
            }
        } else {
            if "-->"@.is_prefix_of(text::trimmed_start(lines[i])) {
                assert(is_pointed(lines, i));
            }
            if is_pointed(lines, i) {
                let j = choose|j: int|
                    {
                        &&& i <= j < lines.len()
                        &&& "-->"@.is_prefix_of(text::trimmed_start(#[trigger] lines[j]))
                        &&& !text::blank(lines[j])
                        &&& forall|k: int| i <= k < j ==> text::blank(#[trigger] lines[k])
                    };
                assert(i == j);
            }
        }
    }
}

/// A line that begins with a small letter tells of no package, fetching or finishing.
pub proof fn lemma_small_letter(line: Seq<char>)
    requires
        line.len() > 0,
        line[0] == 'e' || line[0] == 'w',
    ensures
        ({
            let kind = build_output::line_kind(line);
            !(kind is Package) && !(kind is Fetch) && !(kind is Finished)
        }),
        !names_package(line),
{
    reveal_strlit("Compiling");
    reveal_strlit("Checking");
    reveal_strlit("Blocking waiting for file lock");
    reveal_strlit("Downloading");
    reveal_strlit("Downloaded");
    reveal_strlit("Locking");
    reveal_strlit("Finished");
    let s = text::trimmed_start(line);
    assert(s == line);
    if "Compiling"@.is_prefix_of(s) {
        lemma_prefix("Compiling"@, s, 0);
    }
    if "Checking"@.is_prefix_of(s) {
        lemma_prefix("Checking"@, s, 0);
    }
    if "Blocking waiting for file lock"@.is_prefix_of(s) {
        lemma_prefix("Blocking waiting for file lock"@, s, 0);
    }
    if "Downloading"@.is_prefix_of(s) {
        lemma_prefix("Downloading"@, s, 0);
    }
    if "Downloaded"@.is_prefix_of(s) {
        lemma_prefix("Downloaded"@, s, 0);
    }
    if "Locking"@.is_prefix_of(s) {
        lemma_prefix("Locking"@, s, 0);
    }
    if "Finished"@.is_prefix_of(s) {
        lemma_prefix("Finished"@, s, 0);
    }
}

/// How a line is read that begins a diagnostic or names a package.
pub proof fn lemma_begins(lines: Seq<Seq<char>>, i: int)
    requires
        0 <= i < lines.len(),
    ensures
        ({
            let kind = build_output::line_kind(lines[i]);
            &&& begins(lines, i, true) == (kind is Error)
            &&& begins(lines, i, false) == (kind is CodedWarning || (kind is PlainWarning
                && build_output::pointer_follows(lines, i + 1)))
            &&& names_package(lines[i]) == (kind is Package)
        }),
{
    reveal_strlit("error[");
    reveal_strlit("error:");
    reveal_strlit("warn[");
    reveal_strlit("warn: ");
    reveal_strlit("warn: `scarb cairo-test` is deprecated");
    reveal_strlit("warn: `cairo_test` plugin not found");
    reveal_strlit("warn: artefacts produced by this build may be hard to utilize");
    let line = lines[i];
    lemma_pointed(lines, i + 1);
    if "error["@.is_prefix_of(line) {
        lemma_prefix("error["@, line, 0);
        lemma_small_letter(line);
    }
    if "error:"@.is_prefix_of(line) {
        lemma_prefix("error:"@, line, 0);
        lemma_small_letter(line);
    }
    if "warn["@.is_prefix_of(line) {
        lemma_prefix("warn["@, line, 0);
        lemma_prefix("warn["@, line, 4);
        lemma_small_letter(line);
    }
    if "warn: "@.is_prefix_of(line) {
        lemma_prefix("warn: "@, line, 0);
        lemma_small_letter(line);
    }
    if "warn: `scarb cairo-test` is deprecated"@.is_prefix_of(line) {
        lemma_prefix("warn: `scarb cairo-test` is deprecated"@, line, 0);
        lemma_prefix("warn: `scarb cairo-test` is deprecated"@, line, 4);
    }
    if "warn: `cairo_test` plugin not found"@.is_prefix_of(line) {
        lemma_prefix("warn: `cairo_test` plugin not found"@, line, 0);
        lemma_prefix("warn: `cairo_test` plugin not found"@, line, 4);
    }
    if "warn: artefacts produced by this build may be hard to utilize"@.is_prefix_of(line) {
        lemma_prefix("warn: artefacts produced by this build may be hard to utilize"@, line, 0);
        lemma_prefix("warn: artefacts produced by this build may be hard to utilize"@, line, 4);
    }
}

/// The lines from `i` on that begin an error, or a warning about the user's code.
pub open spec fn diagnostic_lines(lines: Seq<Seq<char>>, i: int, is_error: bool) -> Seq<Seq<char>>
    decreases lines.len() - i,
{
    if i >= lines.len() {
        seq![]
    } else if begins(lines, i, is_error) {
        seq![lines[i]] + diagnostic_lines(lines, i + 1, is_error)
    } else {
        diagnostic_lines(lines, i + 1, is_error)
    }
}

/// How many lines from `i` on name a package that is compiled or checked.
pub open spec fn package_lines(lines: Seq<Seq<char>>, i: int) -> nat
    decreases lines.len() - i,
{
    if i >= lines.len() {
        0
    } else {
        package_lines(lines, i + 1) + (if names_package(lines[i]) {
            1nat
        } else {
            0nat
        })
    }
}

/// The blocks of one kind.
pub open spec fn blocks_of(m: BuildModel, is_error: bool) -> Seq<Seq<char>> {
    if is_error {
        m.errors
    } else {
        m.warnings
    }
}

/// What several diagnostics of one kind are called.
pub open spec fn noun_of(is_error: bool) -> Seq<char> {
    if is_error {
        "errors"@
    } else {
        "warnings"@
    }
}

/// The first line of a block.
pub open spec fn head(block: Seq<char>) -> Seq<char> {
    block.take(text::upto(block, '\n'))
}

/// The first line of each block.
pub open spec fn heads(blocks: Seq<Seq<char>>) -> Seq<Seq<char>> {
    Seq::new(blocks.len(), |i: int| head(blocks[i]))
}

/// Whether no line holds a line feed.
pub open spec fn feedless(lines: Seq<Seq<char>>) -> bool {
    forall|i: int, k: int|
        0 <= i < lines.len() && 0 <= k < lines[i].len() ==> #[trigger] lines[i][k] != '\n'
}

proof fn lemma_head(block: Seq<Seq<char>>)
    requires
        block.len() > 0,
        feedless(block),
    ensures
        head(text::joined(block, "\n"@)) == block[0],
{
    reveal_strlit("\n");
    let whole = text::joined(block, "\n"@);
    let n = block[0].len() as int;
    assert forall|k: int| 0 <= k < n implies whole[k] != '\n' by {
        assert(block[0][k] != '\n');
        assert(whole[k] == block[0][k]);
    }
    text::lemma_upto_at(whole, '\n', n);
    assert(whole.take(n) == block[0]);
}

/// A line inside a warning of scarb about itself begins no diagnostic and names no package.
pub proof fn lemma_noise_begins_nothing(line: Seq<char>)
    requires
        !noise::ends_noise(Stage::Build, line),
    ensures
        !(build_output::line_kind(line) is Error),
        !(build_output::line_kind(line) is CodedWarning),
        !(build_output::line_kind(line) is PlainWarning),
        !(build_output::line_kind(line) is Package),
{
    reveal_strlit("error");
    reveal_strlit("error[");
    reveal_strlit("error:");
    reveal_strlit("warn");
    reveal_strlit("warn[");
    reveal_strlit("warn: ");
    if "error["@.is_prefix_of(line) {
        assert("error"@ =~= line.subrange(0, 5)) by {
            assert(line.subrange(0, 6) =~= "error["@);
            assert(line.subrange(0, 5) =~= line.subrange(0, 6).subrange(0, 5));
        }
    }
    if "error:"@.is_prefix_of(line) {
        assert("error"@ =~= line.subrange(0, 5)) by {
            assert(line.subrange(0, 6) =~= "error:"@);
            assert(line.subrange(0, 5) =~= line.subrange(0, 6).subrange(0, 5));
        }
    }
    if "warn["@.is_prefix_of(line) {
        assert("warn"@ =~= line.subrange(0, 4)) by {
            assert(line.subrange(0, 5) =~= "warn["@);
            assert(line.subrange(0, 4) =~= line.subrange(0, 5).subrange(0, 4));
        }
    }
    if "warn: "@.is_prefix_of(line) {
        assert("warn"@ =~= line.subrange(0, 4)) by {
            assert(line.subrange(0, 6) =~= "warn: "@);
            assert(line.subrange(0, 4) =~= line.subrange(0, 6).subrange(0, 4));
        }
    }
}

/// Passing over a warning of scarb about itself passes over no diagnostic and no package.
pub proof fn lemma_noise_passed_over(lines: Seq<Seq<char>>, i: int, is_error: bool)
    requires
        0 <= i <= lines.len(),
    ensures
        ({
            let end = noise::noise_end(Stage::Build, lines, i);
            &&& diagnostic_lines(lines, i, is_error) == diagnostic_lines(lines, end, is_error)
            &&& package_lines(lines, i) == package_lines(lines, end)
        }),
    decreases lines.len() - i,
{
    if i >= lines.len() || noise::ends_noise(Stage::Build, lines[i]) {
    } else {
        lemma_noise_begins_nothing(lines[i]);
        lemma_begins(lines, i);
        lemma_noise_passed_over(lines, i + 1, is_error);
    }
}

proof fn lemma_heads_push(blocks: Seq<Seq<char>>, block: Seq<char>)
    ensures
        heads(blocks.push(block)) == heads(blocks).push(head(block)),
{
    assert(heads(blocks.push(block)) =~= heads(blocks).push(head(block)));
}

/// What reading one line does to the first lines of the blocks.
pub proof fn lemma_steps(m: BuildModel, line: Seq<char>, is_error: bool)
    requires
        feedless(m.block),
        forall|k: int| 0 <= k < line.len() ==> line[k] != '\n',
    ensures
        forall|e: bool|
            heads(blocks_of(#[trigger] m.opened(e, line).closed(), is_error)) == heads(
                blocks_of(m.closed(), is_error),
            ) + (if e == is_error {
                seq![line]
            } else {
                seq![]
            }),
        heads(blocks_of(m.continued(line).closed(), is_error)) == heads(
            blocks_of(m.closed(), is_error),
        ),
        m.closed().closed() == m.closed(),
        forall|e: bool| feedless(#[trigger] m.opened(e, line).block),
        feedless(m.continued(line).block),
        feedless(m.closed().block),
{
    assert forall|e: bool|
        heads(blocks_of(#[trigger] m.opened(e, line).closed(), is_error)) == heads(
            blocks_of(m.closed(), is_error),
        ) + (if e == is_error {
            seq![line]
        } else {
            seq![]
        }) by {
        let o = m.opened(e, line);
        assert(o.block == seq![line]);
        assert(feedless(o.block));
        lemma_head(o.block);
        if e == is_error {
            lemma_heads_push(blocks_of(m.closed(), is_error), text::joined(o.block, "\n"@));
        }
        assert(heads(blocks_of(o.closed(), is_error)) =~= heads(blocks_of(m.closed(), is_error)) + (
        if e == is_error {
            seq![line]
        } else {
            seq![]
        }));
    }
    let c = m.continued(line);
    if m.block.len() == 0 {
    } else if text::blank(line) && m.block.len() > 3 {
    } else {
        assert(feedless(c.block));
        lemma_head(c.block);
        lemma_head(m.block);
        assert(c.block[0] == m.block[0]);
        if m.block_is_error == is_error {
            lemma_heads_push(blocks_of(m, is_error), text::joined(c.block, "\n"@));
            lemma_heads_push(blocks_of(m, is_error), text::joined(m.block, "\n"@));
        }
    }
}

/// What reading the lines from `i` on adds to the first lines of the blocks, and to the packages.
proof fn lemma_scan(lines: Seq<Seq<char>>, i: int, m: BuildModel, is_error: bool)
    requires
        0 <= i <= lines.len(),
        feedless(lines),
        feedless(m.block),
    ensures
        ({
            let end = build_output::scanned(lines, i, m);
            &&& heads(blocks_of(end.closed(), is_error)) == heads(blocks_of(m.closed(), is_error))
                + diagnostic_lines(lines, i, is_error)
            &&& end.closed().compiled == m.compiled + package_lines(lines, i)
        }),
    decreases lines.len() - i,
{
    if i >= lines.len() {
        assert(heads(blocks_of(m.closed(), is_error)) + diagnostic_lines(lines, i, is_error)
            =~= heads(blocks_of(m.closed(), is_error)));
    } else {
        let line = lines[i];
        assert forall|k: int| 0 <= k < line.len() implies line[k] != '\n' by {
            assert(lines[i][k] != '\n');
        }
        lemma_steps(m, line, is_error);
        lemma_begins(lines, i);
        let before = heads(blocks_of(m.closed(), is_error));
        let after = diagnostic_lines(lines, i + 1, is_error);
        assert(before + (seq![line] + after) =~= before + seq![line] + after);
        assert(before + Seq::<Seq<char>>::empty() =~= before);
        match build_output::line_kind(line) {
            BuildLine::Package => {
                lemma_scan(lines, i + 1, BuildModel { compiled: m.compiled + 1, ..m }, is_error);
            },
            BuildLine::Finished => {
                lemma_scan(
                    lines,
                    i + 1,
                    BuildModel { finished: text::trimmed_start(lines[i]), ..m },
                    is_error,
                );
            },
            BuildLine::Fetch | BuildLine::Aborted | BuildLine::Tally => {
                lemma_scan(lines, i + 1, m, is_error);
            },
            BuildLine::Noise => {
                noise::lemma_noise_end(Stage::Build, lines, i + 1);
                lemma_noise_passed_over(lines, i + 1, is_error);
                lemma_scan(lines, noise::noise_end(Stage::Build, lines, i + 1), m, is_error);
            },
            BuildLine::Error => {
                lemma_scan(lines, i + 1, m.opened(true, line), is_error);
            },
            BuildLine::CodedWarning => {
                lemma_scan(lines, i + 1, m.opened(false, line), is_error);
            },
            BuildLine::PlainWarning => {
                if build_output::pointer_follows(lines, i + 1) {
                    lemma_scan(lines, i + 1, m.opened(false, line), is_error);
                } else {
                    lemma_scan(lines, i + 1, m.closed(), is_error);
                }
            },
            BuildLine::Other => {
                lemma_scan(lines, i + 1, m.continued(line), is_error);
            },
        }
    }
}

/// No diagnostic and no package is lost: there is one error block for each line that begins an
/// error, in their order, and the block begins with that line; the same holds of warnings about
/// the user's code; and the packages are those that a line names.
pub proof fn law_nothing_lost(output: Seq<char>)
    ensures
        ({
            let lines = text::lines_of(output);
            let m = build_output::build_model(output);
            &&& heads(m.errors) == diagnostic_lines(lines, 0, true)
            &&& heads(m.warnings) == diagnostic_lines(lines, 0, false)
            &&& m.errors.len() == diagnostic_lines(lines, 0, true).len()
            &&& m.warnings.len() == diagnostic_lines(lines, 0, false).len()
            &&& m.compiled == package_lines(lines, 0)
        }),
{
    let lines = text::lines_of(output);
    let m = build_output::build_model(output);
    assert forall|i: int, k: int|
        0 <= i < lines.len() && 0 <= k < lines[i].len() implies #[trigger] lines[i][k] != '\n' by {
        containment::lemma_lines_hold_no_feed(output, i, k);
    }
    lemma_scan(lines, 0, BuildModel::empty(), true);
    lemma_scan(lines, 0, BuildModel::empty(), false);
    assert(heads(m.errors) =~= diagnostic_lines(lines, 0, true));
    assert(heads(m.warnings) =~= diagnostic_lines(lines, 0, false));
    assert(heads(m.errors).len() == m.errors.len());
    assert(heads(m.warnings).len() == m.warnings.len());
}

/// The view is the one line of success just where no line begins an error or a warning about the
/// user's code. The line counts the packages that a line names. Any other view begins with the
/// counts.
pub proof fn law_success_line(output: Seq<char>)
    ensures
        ({
            let lines = text::lines_of(output);
            let view = build_output::build_report(build_output::build_model(output));
            if diagnostic_lines(lines, 0, true).len() == 0 && diagnostic_lines(
                lines,
                0,
                false,
            ).len() == 0 {
                view == "✓ scarb build ("@ + number::decimal(package_lines(lines, 0))
                    + " packages compiled)"@
            } else {
                "scarb build: "@.is_prefix_of(view)
            }
        }),
{
    law_nothing_lost(output);
    let m = build_output::build_model(output);
    if m.errors.len() > 0 || m.warnings.len() > 0 {
        let first = build_output::headline(m);
        let whole = first + after_headline(m);
        lemma_report_whole(m);
        reveal_strlit("scarb build: ");
        reveal_strlit(" packages)\n");
        let n = first.len();
        assert(first[n - 2] == ')');
        assert(whole[n - 2] == ')');
        assert(whole[0] == 's');
        let r = containment::lemma_trimmed_bounds(whole);
        assert(r.0 == 0);
        assert(r.1 > n - 2);
        let view = text::trimmed(whole);
        assert("scarb build: "@ =~= view.subrange(0, 13));
    }
}

/// What follows the headline of a view.
spec fn after_headline(m: BuildModel) -> Seq<char> {
    "═══════════════════════════════════════\n"@ + build_output::shown_blocks(m)
        + build_output::ending(m)
}

proof fn lemma_report_whole(m: BuildModel)
    requires
        m.errors.len() > 0 || m.warnings.len() > 0,
    ensures
        build_output::build_report(m) == text::trimmed(
            build_output::headline(m) + after_headline(m),
        ),
{
    let rule = "═══════════════════════════════════════\n"@;
    assert(build_output::headline(m) + rule + build_output::shown_blocks(m) + build_output::ending(
        m,
    ) =~= build_output::headline(m) + after_headline(m));
}

proof fn lemma_first_blocks_hold(blocks: Seq<Seq<char>>, n: int, k: int)
    requires
        0 <= k < n <= blocks.len(),
    ensures
        text::has_text(build_output::first_blocks(blocks, n), blocks[k]),
    decreases n,
{
    let before = build_output::first_blocks(blocks, n - 1);
    let block = blocks[n - 1];
    let gap = if n < blocks.len() {
        "\n"@
    } else {
        ""@
    };
    if k == n - 1 {
        containment::lemma_middle(before, block, "\n"@);
    } else {
        lemma_first_blocks_hold(blocks, n - 1, k);
        containment::lemma_in_first(before, block, blocks[k]);
        containment::lemma_in_first(before + block, "\n"@, blocks[k]);
    }
    containment::lemma_in_first(before + block + "\n"@, gap, blocks[k]);
}

proof fn lemma_block_list_holds(blocks: Seq<Seq<char>>, noun: Seq<char>, k: int)
    requires
        0 <= k < blocks.len(),
        k < SHOWN_DIAGNOSTICS,
    ensures
        text::has_text(build_output::block_list(blocks, noun), blocks[k]),
{
    if blocks.len() > SHOWN_DIAGNOSTICS {
        let first = build_output::first_blocks(blocks, SHOWN_DIAGNOSTICS as int);
        let rest = "\n... +"@ + number::decimal((blocks.len() - SHOWN_DIAGNOSTICS) as nat)
            + " more "@ + noun + "\n"@;
        lemma_first_blocks_hold(blocks, SHOWN_DIAGNOSTICS as int, k);
        containment::lemma_in_first(first, rest, blocks[k]);
        assert(build_output::block_list(blocks, noun) =~= first + rest);
    } else {
        lemma_first_blocks_hold(blocks, blocks.len() as int, k);
    }
}

/// A text that says how many blocks are not shown.
pub open spec fn more_blocks(n: nat, noun: Seq<char>) -> Seq<char> {
    "... +"@ + number::decimal(n) + " more "@ + noun
}

proof fn lemma_block_list_counts(blocks: Seq<Seq<char>>, noun: Seq<char>)
    requires
        blocks.len() > SHOWN_DIAGNOSTICS,
    ensures
        text::has_text(
            build_output::block_list(blocks, noun),
            more_blocks((blocks.len() - SHOWN_DIAGNOSTICS) as nat, noun),
        ),
{
    reveal_strlit("\n... +");
    reveal_strlit("... +");
    reveal_strlit("\n");
    let first = build_output::first_blocks(blocks, SHOWN_DIAGNOSTICS as int);
    let more = more_blocks((blocks.len() - SHOWN_DIAGNOSTICS) as nat, noun);
    containment::lemma_middle(first + "\n"@, more, "\n"@);
    assert("\n... +"@ =~= "\n"@ + "... +"@);
    assert(build_output::block_list(blocks, noun) =~= first + "\n"@ + more + "\n"@);
}

proof fn lemma_in_shown(m: BuildModel, is_error: bool, p: Seq<char>)
    requires
        blocks_of(m, is_error).len() > 0,
        text::has_text(
            build_output::block_list(blocks_of(m, is_error), noun_of(is_error)),
            p,
        ),
    ensures
        text::has_text(build_output::shown_blocks(m), p),
{
    let errors = build_output::block_list(m.errors, "errors"@);
    let warnings = build_output::block_list(m.warnings, "warnings"@);
    let gap = if m.warnings.len() > 0 {
        "\n"@
    } else {
        ""@
    };
    let first: Seq<char> = if m.errors.len() > 0 {
        errors + gap
    } else {
        seq![]
    };
    if is_error {
        containment::lemma_in_first(errors, gap, p);
        containment::lemma_in_first(first, warnings, p);
    } else {
        containment::lemma_in_second(first, warnings, p);
    }
}

proof fn lemma_in_report(m: BuildModel, p: Seq<char>)
    requires
        m.errors.len() > 0 || m.warnings.len() > 0,
        text::has_text(build_output::shown_blocks(m), p),
    ensures
        text::has_text(build_output::build_report(m), text::trimmed(p)),
{
    let rule = "═══════════════════════════════════════\n"@;
    let blocks = build_output::shown_blocks(m);
    containment::lemma_in_second(rule, blocks, p);
    containment::lemma_in_first(rule + blocks, build_output::ending(m), p);
    containment::lemma_in_second(build_output::headline(m), after_headline(m), p);
    lemma_report_whole(m);
    containment::lemma_trimming_keeps(build_output::headline(m) + after_headline(m), p);
}

/// Each of the first blocks stands in the view, of errors and of warnings. Only white space at a
/// block's end may be missing.
pub proof fn law_blocks_shown(output: Seq<char>, is_error: bool, k: int)
    requires
        ({
            let m = build_output::build_model(output);
            &&& 0 <= k < blocks_of(m, is_error).len()
            &&& k < SHOWN_DIAGNOSTICS
        }),
    ensures
        ({
            let m = build_output::build_model(output);
            text::has_text(
                build_output::build_report(m),
                text::trimmed(blocks_of(m, is_error)[k]),
            )
        }),
{
    let m = build_output::build_model(output);
    let block = blocks_of(m, is_error)[k];
    lemma_block_list_holds(blocks_of(m, is_error), noun_of(is_error), k);
    lemma_in_shown(m, is_error, block);
    lemma_in_report(m, block);
}

/// Each of the first lines that begin an error stands in the view, and so does each of the first
/// that begin a warning about the user's code. Only white space at the line's end may be missing.
pub proof fn law_diagnostic_lines_shown(output: Seq<char>, is_error: bool, k: int)
    requires
        ({
            let lines = text::lines_of(output);
            &&& 0 <= k < diagnostic_lines(lines, 0, is_error).len()
            &&& k < SHOWN_DIAGNOSTICS
        }),
    ensures
        text::has_text(
            build_output::build_report(build_output::build_model(output)),
            text::trimmed(diagnostic_lines(text::lines_of(output), 0, is_error)[k]),
        ),
{
    let m = build_output::build_model(output);
    let block = blocks_of(m, is_error)[k];
    let line = diagnostic_lines(text::lines_of(output), 0, is_error)[k];
    law_nothing_lost(output);
    law_blocks_shown(output, is_error, k);
    assert(heads(blocks_of(m, is_error))[k] == head(block));
    text::lemma_upto_bounds(block, '\n');
    assert(text::occurs_at(block, line, 0));
    containment::lemma_trimming_keeps(block, line);
    containment::lemma_through(
        build_output::build_report(m),
        text::trimmed(block),
        text::trimmed(line),
    );
}

/// Where there are more errors, or more warnings, than are shown, the view says how many are
/// missing.
pub proof fn law_hidden_blocks_counted(output: Seq<char>, is_error: bool)
    requires
        ({
            let m = build_output::build_model(output);
            &&& blocks_of(m, is_error).len() > SHOWN_DIAGNOSTICS
        }),
    ensures
        ({
            let m = build_output::build_model(output);
            text::has_text(
                build_output::build_report(m),
                more_blocks(
                    (blocks_of(m, is_error).len() - SHOWN_DIAGNOSTICS) as nat,
                    noun_of(is_error),
                ),
            )
        }),
{
    let m = build_output::build_model(output);
    reveal_strlit("... +");
    reveal_strlit("errors");
    reveal_strlit("warnings");
    let noun = noun_of(is_error);
    let blocks = blocks_of(m, is_error);
    let more = more_blocks((blocks.len() - SHOWN_DIAGNOSTICS) as nat, noun);
    lemma_block_list_counts(blocks, noun);
    lemma_in_shown(m, is_error, more);
    lemma_in_report(m, more);
    assert(more[0] == '.');
    assert(more.last() == 's');
    containment::lemma_trimmed_already(more);
}

/// Whether a line may stand in a block: it is one of `lines`, and neither names a package nor
/// tells of fetching, finishing, scarb itself or the mere number of diagnostics.
pub open spec fn may_show(lines: Seq<Seq<char>>, line: Seq<char>) -> bool {
    let kind = build_output::line_kind(line);
    &&& lines.contains(line)
    &&& kind is Error || kind is CodedWarning || kind is PlainWarning || kind is Other
}

/// Whether a block is made of lines that may stand in one.
pub open spec fn made_of_shown(lines: Seq<Seq<char>>, block: Seq<char>) -> bool {
    exists|ls: Seq<Seq<char>>|
        {
            &&& block == #[trigger] text::joined(ls, "\n"@)
            &&& ls.len() > 0
            &&& forall|j: int| 0 <= j < ls.len() ==> may_show(lines, #[trigger] ls[j])
        }
}

spec fn all_shown(lines: Seq<Seq<char>>, m: BuildModel) -> bool {
    &&& forall|k: int| 0 <= k < m.errors.len() ==> made_of_shown(lines, #[trigger] m.errors[k])
    &&& forall|k: int| 0 <= k < m.warnings.len() ==> made_of_shown(lines, #[trigger] m.warnings[k])
    &&& forall|j: int| 0 <= j < m.block.len() ==> may_show(lines, #[trigger] m.block[j])
}

proof fn lemma_closed_shown(lines: Seq<Seq<char>>, m: BuildModel)
    requires
        all_shown(lines, m),
    ensures
        all_shown(lines, m.closed()),
{
    if m.block.len() > 0 {
        assert(made_of_shown(lines, text::joined(m.block, "\n"@)));
    }
}

proof fn lemma_scan_shown(lines: Seq<Seq<char>>, i: int, m: BuildModel)
    requires
        0 <= i <= lines.len(),
        all_shown(lines, m),
    ensures
        all_shown(lines, build_output::scanned(lines, i, m).closed()),
    decreases lines.len() - i,
{
    lemma_closed_shown(lines, m);
    if i < lines.len() {
        let line = lines[i];
        assert(lines.contains(line));
        match build_output::line_kind(line) {
            BuildLine::Package => {
                lemma_scan_shown(lines, i + 1, BuildModel { compiled: m.compiled + 1, ..m });
            },
            BuildLine::Finished => {
                lemma_scan_shown(
                    lines,
                    i + 1,
                    BuildModel { finished: text::trimmed_start(lines[i]), ..m },
                );
            },
            BuildLine::Fetch | BuildLine::Aborted | BuildLine::Tally => {
                lemma_scan_shown(lines, i + 1, m);
            },
            BuildLine::Noise => {
                noise::lemma_noise_end(Stage::Build, lines, i + 1);
                lemma_scan_shown(lines, noise::noise_end(Stage::Build, lines, i + 1), m);
            },
            BuildLine::Error => {
                lemma_scan_shown(lines, i + 1, m.opened(true, line));
            },
            BuildLine::CodedWarning => {
                lemma_scan_shown(lines, i + 1, m.opened(false, line));
            },
            BuildLine::PlainWarning => {
                if build_output::pointer_follows(lines, i + 1) {
                    lemma_scan_shown(lines, i + 1, m.opened(false, line));
                } else {
                    lemma_scan_shown(lines, i + 1, m.closed());
                }
            },
            BuildLine::Other => {
                lemma_scan_shown(lines, i + 1, m.continued(line));
            },
        }
    }
}

/// The blocks hold lines of the output and nothing else, and no line that names a package or
/// tells of fetching, finishing, scarb itself or the mere number of diagnostics.
pub proof fn law_blocks_hold_no_noise(output: Seq<char>, is_error: bool, k: int)
    requires
        0 <= k < blocks_of(build_output::build_model(output), is_error).len(),
    ensures
        made_of_shown(
            text::lines_of(output),
            blocks_of(build_output::build_model(output), is_error)[k],
        ),
{
    lemma_scan_shown(text::lines_of(output), 0, BuildModel::empty());
}

/// The view neither begins nor ends with white space.
pub proof fn law_view_trimmed(output: Seq<char>)
    ensures
        ({
            let view = build_output::build_report(build_output::build_model(output));
            text::trimmed(view) == view
        }),
{
    let m = build_output::build_model(output);
    let view = build_output::build_report(m);
    if m.errors.len() == 0 && m.warnings.len() == 0 {
        reveal_strlit("✓ scarb build (");
        reveal_strlit(" packages compiled)");
        assert(view[0] == '✓');
        assert(view.last() == ')');
        containment::lemma_trimmed_already(view);
    } else {
        lemma_report_whole(m);
        containment::lemma_trimmed_twice(build_output::headline(m) + after_headline(m));
    }
}

} // verus!
