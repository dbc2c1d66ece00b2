//! How the diagnostics of a build stand in its view: each with all of its lines, in order.
use crate::containment;
use crate::counts;
use crate::number;
use crate::scarb_cmd::build_laws;
use crate::scarb_cmd::build_output;
use crate::scarb_cmd::build_output::{BuildLine, BuildModel, SHOWN_DIAGNOSTICS};
use crate::scarb_cmd::noise;
use crate::scarb_cmd::noise::Stage;
use crate::text;
use vstd::prelude::*;

verus! {

/// Whether a line begins nothing and tells nothing of the build's progress.
pub open spec fn is_plain(line: Seq<char>) -> bool {
    let start = text::trimmed_start(line);
    &&& !"Compiling"@.is_prefix_of(start)
    &&& !"Checking"@.is_prefix_of(start)
    &&& !"Blocking waiting for file lock"@.is_prefix_of(start)
    &&& !"Downloading"@.is_prefix_of(start)
    &&& !"Downloaded"@.is_prefix_of(start)
    &&& !"Locking"@.is_prefix_of(start)
    &&& !"Finished"@.is_prefix_of(start)
    &&& !"error["@.is_prefix_of(line)
    &&& !"error:"@.is_prefix_of(line)
    &&& !"warn["@.is_prefix_of(line)
    &&& !"warn: "@.is_prefix_of(line)
    &&& !("warning:"@.is_prefix_of(line) && text::has_text(line, "generated"@))
}

/// Which of the diagnostics of its kind the line at `b` begins.
pub open spec fn rank(lines: Seq<Seq<char>>, b: int, is_error: bool) -> int {
    build_laws::diagnostic_lines(lines, 0, is_error).len() - build_laws::diagnostic_lines(
        lines,
        b,
        is_error,
    ).len()
}

/// Whether a line tells only of the build's progress: of packages, fetching or finishing, or of
/// how many diagnostics there were.
pub open spec fn is_progress(line: Seq<char>) -> bool {
    let start = text::trimmed_start(line);
    ||| "Compiling"@.is_prefix_of(start)
    ||| "Checking"@.is_prefix_of(start)
    ||| "Blocking waiting for file lock"@.is_prefix_of(start)
    ||| "Downloading"@.is_prefix_of(start)
    ||| "Downloaded"@.is_prefix_of(start)
    ||| "Locking"@.is_prefix_of(start)
    ||| "Finished"@.is_prefix_of(start)
    ||| {
        &&& "error["@.is_prefix_of(line) || "error:"@.is_prefix_of(line)
        &&& text::has_text(line, "aborting due to"@) || text::has_text(line, "could not compile"@)
    }
    ||| "warning:"@.is_prefix_of(line) && text::has_text(line, "generated"@)
}

/// The lines from `b` to `i`, without those that tell only of the build's progress.
pub open spec fn told(lines: Seq<Seq<char>>, b: int, i: int) -> Seq<Seq<char>>
    decreases i - b,
{
    if i <= b {
        seq![lines[b]]
    } else if is_progress(lines[i]) {
        told(lines, b, i - 1)
    } else {
        told(lines, b, i - 1).push(lines[i])
    }
}

/// The lines from `b` to `i`, without those that tell only of the build's progress, as one text.
pub open spec fn passage(lines: Seq<Seq<char>>, b: int, i: int) -> Seq<char> {
    text::joined(told(lines, b, i), "\n"@)
}

/// Whether each of the lines after `b` up to `i` tells only of progress, or carries on what line
/// `b` begins: it begins nothing, and is not blank unless it is among the first lines.
pub open spec fn carry_on(lines: Seq<Seq<char>>, b: int, i: int) -> bool {
    forall|j: int|
        b < j <= i ==> is_progress(#[trigger] lines[j]) || (is_plain(lines[j]) && (!text::blank(
            lines[j],
        ) || told(lines, b, j - 1).len() <= 3))
}

proof fn lemma_progress_kind(line: Seq<char>)
    requires
        is_progress(line),
    ensures
        ({
            let kind = build_output::line_kind(line);
            ||| kind is Package
            ||| kind is Fetch
            ||| kind is Finished
            ||| kind is Aborted
            ||| kind is Tally
        }),
{
    reveal_strlit("error[");
    reveal_strlit("error:");
    reveal_strlit("warning:");
    reveal_strlit("warning");
    reveal_strlit("warn[");
    reveal_strlit("warn: ");
    reveal_strlit("warn: `scarb cairo-test` is deprecated");
    reveal_strlit("warn: `cairo_test` plugin not found");
    reveal_strlit("warn: artefacts produced by this build may be hard to utilize");
    if "error["@.is_prefix_of(line) {
        build_laws::lemma_prefix("error["@, line, 0);
    }
    if "error:"@.is_prefix_of(line) {
        build_laws::lemma_prefix("error:"@, line, 0);
    }
    if "warn["@.is_prefix_of(line) {
        build_laws::lemma_prefix("warn["@, line, 4);
    }
    if "warn: "@.is_prefix_of(line) {
        build_laws::lemma_prefix("warn: "@, line, 4);
    }
    if "warn: `scarb cairo-test` is deprecated"@.is_prefix_of(line) {
        build_laws::lemma_prefix("warn: `scarb cairo-test` is deprecated"@, line, 0);
        build_laws::lemma_prefix("warn: `scarb cairo-test` is deprecated"@, line, 4);
    }
    if "warn: `cairo_test` plugin not found"@.is_prefix_of(line) {
        build_laws::lemma_prefix("warn: `cairo_test` plugin not found"@, line, 0);
        build_laws::lemma_prefix("warn: `cairo_test` plugin not found"@, line, 4);
    }
    if "warn: artefacts produced by this build may be hard to utilize"@.is_prefix_of(line) {
        let p = "warn: artefacts produced by this build may be hard to utilize"@;
        build_laws::lemma_prefix(p, line, 0);
        build_laws::lemma_prefix(p, line, 4);
    }
    if "warning:"@.is_prefix_of(line) {
        build_laws::lemma_prefix("warning:"@, line, 0);
        build_laws::lemma_prefix("warning:"@, line, 4);
        assert(line.subrange(0, 7) =~= line.subrange(0, 8).subrange(0, 7));
        assert("warning:"@.subrange(0, 7) =~= "warning"@);
        assert(text::occurs_at(line, "warning"@, 0));
    }
}

proof fn lemma_plain_kind(line: Seq<char>)
    requires
        is_plain(line),
    ensures
        build_output::line_kind(line) is Other,
{
    reveal_strlit("warn: ");
    reveal_strlit("warn: `scarb cairo-test` is deprecated");
    reveal_strlit("warn: `cairo_test` plugin not found");
    reveal_strlit("warn: artefacts produced by this build may be hard to utilize");
    if noise::noise_warn(line) {
        assert("warn: "@.is_prefix_of(line)) by {
            if "warn: `scarb cairo-test` is deprecated"@.is_prefix_of(line) {
                let p = "warn: `scarb cairo-test` is deprecated"@;
                assert(line.subrange(0, 6) =~= line.subrange(0, p.len() as int).subrange(0, 6));
                assert(p.subrange(0, 6) =~= "warn: "@);
            } else if "warn: `cairo_test` plugin not found"@.is_prefix_of(line) {
                let p = "warn: `cairo_test` plugin not found"@;
                assert(line.subrange(0, 6) =~= line.subrange(0, p.len() as int).subrange(0, 6));
                assert(p.subrange(0, 6) =~= "warn: "@);
            } else {
                let p = "warn: artefacts produced by this build may be hard to utilize"@;
                assert(line.subrange(0, 6) =~= line.subrange(0, p.len() as int).subrange(0, 6));
                assert(p.subrange(0, 6) =~= "warn: "@);
            }
        }
    }
}

/// What is read before line `b`, which begins a diagnostic.
proof fn lemma_reach(lines: Seq<Seq<char>>, i: int, m: BuildModel, b: int, is_error: bool) -> (r:
    BuildModel)
    requires
        0 <= i <= b < lines.len(),
        build_laws::feedless(lines),
        build_laws::feedless(m.block),
        build_laws::begins(lines, b, is_error),
    ensures
        build_output::scanned(lines, i, m) == build_output::scanned(lines, b, r),
        build_laws::blocks_of(r.closed(), is_error).len() == build_laws::blocks_of(
            m.closed(),
            is_error,
        ).len() + build_laws::diagnostic_lines(lines, i, is_error).len()
            - build_laws::diagnostic_lines(lines, b, is_error).len(),
    decreases b - i,
{
    if i == b {
        m
    } else {
        let line = lines[i];
        assert forall|k: int| 0 <= k < line.len() implies line[k] != '\n' by {
            assert(lines[i][k] != '\n');
        }
        build_laws::lemma_steps(m, line, is_error);
        build_laws::lemma_begins(lines, i);
        build_laws::lemma_begins(lines, b);
        lemma_heads_len(m, line, is_error);
        match build_output::line_kind(line) {
            BuildLine::Package => {
                lemma_reach(lines, i + 1, BuildModel { compiled: m.compiled + 1, ..m }, b, is_error)
            },
            BuildLine::Finished => {
                lemma_reach(
                    lines,
                    i + 1,
                    BuildModel { finished: text::trimmed_start(line), ..m },
                    b,
                    is_error,
                )
            },
            BuildLine::Fetch | BuildLine::Aborted | BuildLine::Tally => {
                lemma_reach(lines, i + 1, m, b, is_error)
            },
            BuildLine::Noise => {
                let end = noise::noise_end(Stage::Build, lines, i + 1);
                noise::lemma_noise_end(Stage::Build, lines, i + 1);
                build_laws::lemma_noise_passed_over(lines, i + 1, is_error);
                if end > b {
                    build_laws::lemma_noise_begins_nothing(lines[b]);
                }
                lemma_reach(lines, end, m, b, is_error)
            },
            BuildLine::Error => { lemma_reach(lines, i + 1, m.opened(true, line), b, is_error) },
            BuildLine::CodedWarning => {
                lemma_reach(lines, i + 1, m.opened(false, line), b, is_error)
            },
            BuildLine::PlainWarning => {
                if build_output::pointer_follows(lines, i + 1) {
                    lemma_reach(lines, i + 1, m.opened(false, line), b, is_error)
                } else {
                    lemma_reach(lines, i + 1, m.closed(), b, is_error)
                }
            },
            BuildLine::Other => { lemma_reach(lines, i + 1, m.continued(line), b, is_error) },
        }
    }
}

proof fn lemma_heads_len(m: BuildModel, line: Seq<char>, is_error: bool)
    requires
        build_laws::feedless(m.block),
        forall|k: int| 0 <= k < line.len() ==> line[k] != '\n',
    ensures
        forall|e: bool|
            build_laws::blocks_of(#[trigger] m.opened(e, line).closed(), is_error).len()
                == build_laws::blocks_of(m.closed(), is_error).len() + (if e == is_error {
                1int
            } else {
                0int
            }),
        build_laws::blocks_of(m.continued(line).closed(), is_error).len() == build_laws::blocks_of(
            m.closed(),
            is_error,
        ).len(),
{
}

/// Lines that carry the open block on are read into it.
proof fn lemma_carried(lines: Seq<Seq<char>>, b: int, j: int, i: int, m: BuildModel) -> (r:
    BuildModel)
    requires
        0 <= b < j <= i + 1 <= lines.len(),
        m.block == told(lines, b, j - 1),
        carry_on(lines, b, i),
    ensures
        build_output::scanned(lines, j, m) == build_output::scanned(lines, i + 1, r),
        r.block == told(lines, b, i),
        r.block_is_error == m.block_is_error,
        r.errors == m.errors,
        r.warnings == m.warnings,
    decreases i + 1 - j,
{
    lemma_told_some(lines, b, j - 1);
    if j > i {
        m
    } else {
        let line = lines[j];
        assert(told(lines, b, j) == (if is_progress(line) {
            told(lines, b, j - 1)
        } else {
            told(lines, b, j - 1).push(line)
        }));
        if is_progress(line) {
            lemma_progress_kind(line);
            match build_output::line_kind(line) {
                BuildLine::Package => {
                    lemma_carried(
                        lines,
                        b,
                        j + 1,
                        i,
                        BuildModel { compiled: m.compiled + 1, ..m },
                    )
                },
                BuildLine::Finished => {
                    lemma_carried(
                        lines,
                        b,
                        j + 1,
                        i,
                        BuildModel { finished: text::trimmed_start(line), ..m },
                    )
                },
                _ => lemma_carried(lines, b, j + 1, i, m),
            }
        } else {
            lemma_plain_kind(line);
            let next = m.continued(line);
            assert(next == BuildModel { block: m.block.push(line), ..m });
            lemma_carried(lines, b, j + 1, i, next)
        }
    }
}

proof fn lemma_told_some(lines: Seq<Seq<char>>, b: int, i: int)
    ensures
        told(lines, b, i).len() > 0,
    decreases i - b,
{
    if i > b {
        lemma_told_some(lines, b, i - 1);
    }
}

/// A text stands at the start of the lines that begin with its lines.
proof fn lemma_joined_prefix(a: Seq<Seq<char>>, b: Seq<Seq<char>>)
    requires
        a.len() > 0,
    ensures
        text::joined(a, "\n"@).is_prefix_of(text::joined(a + b, "\n"@)),
    decreases a.len(),
{
    let all = a + b;
    if a.len() == 1 {
        if b.len() == 0 {
            assert(all =~= a);
        }
        assert(all[0] == a[0]);
        assert(text::joined(all, "\n"@).subrange(0, a[0].len() as int) =~= a[0]);
    } else {
        let rest = a.skip(1);
        lemma_joined_prefix(rest, b);
        assert(all.skip(1) =~= rest + b);
        let whole = text::joined(all, "\n"@);
        let part = text::joined(a, "\n"@);
        let first = a[0] + "\n"@;
        let n = text::joined(rest, "\n"@).len() as int;
        assert(whole == first + text::joined(rest + b, "\n"@));
        assert(part == first + text::joined(rest, "\n"@));
        assert(text::joined(rest + b, "\n"@).subrange(0, n) == text::joined(rest, "\n"@));
        assert(whole.subrange(0, part.len() as int) =~= first + text::joined(
            rest + b,
            "\n"@,
        ).subrange(0, n));
    }
}

/// The open block, once it is complete, begins with the lines that it has now.
proof fn lemma_open_kept(lines: Seq<Seq<char>>, i: int, m: BuildModel, part: Seq<Seq<char>>)
    requires
        0 <= i <= lines.len(),
        part.len() > 0,
        part.is_prefix_of(m.block),
    ensures
        ({
            let e = m.block_is_error;
            let k = build_laws::blocks_of(m, e).len() as int;
            let end = build_laws::blocks_of(build_output::scanned(lines, i, m).closed(), e);
            k < end.len() && text::joined(part, "\n"@).is_prefix_of(end[k])
        }),
    decreases lines.len() - i,
{
    let e = m.block_is_error;
    let c = m.closed();
    let k = build_laws::blocks_of(m, e).len() as int;
    let rest = m.block.skip(part.len() as int);
    assert(part + rest =~= m.block);
    lemma_joined_prefix(part, rest);
    assert(build_laws::blocks_of(c, e)[k] == text::joined(m.block, "\n"@));
    if i < lines.len() {
        let line = lines[i];
        match build_output::line_kind(line) {
            BuildLine::Package => {
                lemma_open_kept(lines, i + 1, BuildModel { compiled: m.compiled + 1, ..m }, part);
            },
            BuildLine::Finished => {
                lemma_open_kept(
                    lines,
                    i + 1,
                    BuildModel { finished: text::trimmed_start(line), ..m },
                    part,
                );
            },
            BuildLine::Fetch | BuildLine::Aborted | BuildLine::Tally => {
                lemma_open_kept(lines, i + 1, m, part);
            },
            BuildLine::Noise => {
                noise::lemma_noise_end(Stage::Build, lines, i + 1);
                lemma_open_kept(lines, noise::noise_end(Stage::Build, lines, i + 1), m, part);
            },
            BuildLine::Error => {
                lemma_blocks_kept(lines, i + 1, m.opened(true, line), e);
            },
            BuildLine::CodedWarning => {
                lemma_blocks_kept(lines, i + 1, m.opened(false, line), e);
            },
            BuildLine::PlainWarning => {
                if build_output::pointer_follows(lines, i + 1) {
                    lemma_blocks_kept(lines, i + 1, m.opened(false, line), e);
                } else {
                    lemma_blocks_kept(lines, i + 1, c, e);
                }
            },
            BuildLine::Other => {
                let next = m.continued(line);
                if text::blank(line) && m.block.len() > 3 {
                    lemma_blocks_kept(lines, i + 1, c, e);
                } else {
                    let n = part.len() as int;
                    assert(part == m.block.subrange(0, n));
                    assert(next.block.subrange(0, n) =~= m.block.subrange(0, n));
                    lemma_open_kept(lines, i + 1, next, part);
                }
            },
        }
    }
}

/// Blocks that are complete stay as they are.
proof fn lemma_blocks_kept(lines: Seq<Seq<char>>, i: int, m: BuildModel, e: bool)
    requires
        0 <= i <= lines.len(),
    ensures
        ({
            let end = build_laws::blocks_of(build_output::scanned(lines, i, m).closed(), e);
            let now = build_laws::blocks_of(m, e);
            &&& now.len() <= end.len()
            &&& forall|k: int| 0 <= k < now.len() ==> #[trigger] now[k] == end[k]
        }),
    decreases lines.len() - i,
{
    if i < lines.len() {
        let line = lines[i];
        match build_output::line_kind(line) {
            BuildLine::Package => {
                lemma_blocks_kept(lines, i + 1, BuildModel { compiled: m.compiled + 1, ..m }, e);
            },
            BuildLine::Finished => {
                lemma_blocks_kept(
                    lines,
                    i + 1,
                    BuildModel { finished: text::trimmed_start(line), ..m },
                    e,
                );
            },
            BuildLine::Fetch | BuildLine::Aborted | BuildLine::Tally => {
                lemma_blocks_kept(lines, i + 1, m, e);
            },
            BuildLine::Noise => {
                noise::lemma_noise_end(Stage::Build, lines, i + 1);
                lemma_blocks_kept(lines, noise::noise_end(Stage::Build, lines, i + 1), m, e);
            },
            BuildLine::Error => {
                lemma_blocks_kept(lines, i + 1, m.opened(true, line), e);
                lemma_closed_grows(m, e);
            },
            BuildLine::CodedWarning => {
                lemma_blocks_kept(lines, i + 1, m.opened(false, line), e);
                lemma_closed_grows(m, e);
            },
            BuildLine::PlainWarning => {
                lemma_closed_grows(m, e);
                if build_output::pointer_follows(lines, i + 1) {
                    lemma_blocks_kept(lines, i + 1, m.opened(false, line), e);
                } else {
                    lemma_blocks_kept(lines, i + 1, m.closed(), e);
                }
            },
            BuildLine::Other => {
                lemma_closed_grows(m, e);
                lemma_blocks_kept(lines, i + 1, m.continued(line), e);
            },
        }
    } else {
        lemma_closed_grows(m, e);
    }
}

proof fn lemma_closed_grows(m: BuildModel, e: bool)
    ensures
        ({
            let now = build_laws::blocks_of(m, e);
            let then = build_laws::blocks_of(m.closed(), e);
            &&& now.len() <= then.len()
            &&& forall|k: int| 0 <= k < now.len() ==> #[trigger] now[k] == then[k]
        }),
{
}

proof fn lemma_feedless(output: Seq<char>)
    ensures
        build_laws::feedless(text::lines_of(output)),
{
    let lines = text::lines_of(output);
    assert forall|i: int, k: int|
        0 <= i < lines.len() && 0 <= k < lines[i].len() implies #[trigger] lines[i][k] != '\n' by {
        containment::lemma_lines_hold_no_feed(output, i, k);
    }
}

/// What is read up to line `i`, where line `b` begins a diagnostic that the lines after it carry
/// on.
proof fn lemma_block_read(output: Seq<char>, is_error: bool, b: int, i: int) -> (r: BuildModel)
    requires
        0 <= b <= i < text::lines_of(output).len(),
        build_laws::begins(text::lines_of(output), b, is_error),
        carry_on(text::lines_of(output), b, i),
    ensures
        build_output::build_model(output) == build_output::scanned(
            text::lines_of(output),
            i + 1,
            r,
        ).closed(),
        r.block == told(text::lines_of(output), b, i),
        r.block_is_error == is_error,
        build_laws::blocks_of(r, is_error).len() == rank(text::lines_of(output), b, is_error),
{
    let lines = text::lines_of(output);
    lemma_feedless(output);
    let m = lemma_reach(lines, 0, BuildModel::empty(), b, is_error);
    build_laws::lemma_begins(lines, b);
    let o = m.opened(is_error, lines[b]);
    assert(told(lines, b, b) =~= seq![lines[b]]);
    lemma_carried(lines, b, b + 1, i, o)
}

/// No line of a diagnostic is lost. Where a line begins an error or a warning about the user's
/// code, and the lines after it carry it on or tell of progress, the block of that diagnostic
/// begins with all of the lines that do not tell of progress, in order. They stand in the view if
/// the diagnostic is one of those that are shown; only white space at their ends may be missing.
pub proof fn law_block_whole(output: Seq<char>, is_error: bool, b: int, i: int)
    requires
        0 <= b <= i < text::lines_of(output).len(),
        build_laws::begins(text::lines_of(output), b, is_error),
        carry_on(text::lines_of(output), b, i),
    ensures
        ({
            let lines = text::lines_of(output);
            let m = build_output::build_model(output);
            let k = rank(lines, b, is_error);
            &&& 0 <= k < build_laws::blocks_of(m, is_error).len()
            &&& passage(lines, b, i).is_prefix_of(build_laws::blocks_of(m, is_error)[k])
            &&& k < SHOWN_DIAGNOSTICS ==> text::has_text(
                build_output::build_report(m),
                text::trimmed(passage(lines, b, i)),
            )
        }),
{
    let lines = text::lines_of(output);
    let m = build_output::build_model(output);
    let r = lemma_block_read(output, is_error, b, i);
    lemma_told_some(lines, b, i);
    assert(r.block =~= r.block.subrange(0, r.block.len() as int));
    lemma_open_kept(lines, i + 1, r, r.block);
    let k = rank(lines, b, is_error);
    if k < SHOWN_DIAGNOSTICS {
        let block = build_laws::blocks_of(m, is_error)[k];
        let part = passage(lines, b, i);
        build_laws::law_blocks_shown(output, is_error, k);
        assert(text::occurs_at(block, part, 0));
        containment::lemma_trimming_keeps(block, part);
        containment::lemma_through(
            build_output::build_report(m),
            text::trimmed(block),
            text::trimmed(part),
        );
    }
}

/// Nothing but its own lines stands in a diagnostic. Its block is just the line that begins it
/// and those that carry it on, where then the output ends, another diagnostic or a warning without
/// a pointer begins or, after more than three lines, a blank line follows.
pub proof fn law_block_exact(output: Seq<char>, is_error: bool, b: int, i: int)
    requires
        0 <= b <= i < text::lines_of(output).len(),
        build_laws::begins(text::lines_of(output), b, is_error),
        carry_on(text::lines_of(output), b, i),
        ({
            let lines = text::lines_of(output);
            ||| i + 1 == lines.len()
            ||| build_laws::begins(lines, i + 1, true)
            ||| build_laws::begins(lines, i + 1, false)
            ||| "warn: "@.is_prefix_of(lines[i + 1]) && !build_laws::is_self_warning(lines[i + 1])
            ||| text::blank(lines[i + 1]) && told(lines, b, i).len() > 3
        }),
    ensures
        ({
            let lines = text::lines_of(output);
            let m = build_output::build_model(output);
            let k = rank(lines, b, is_error);
            &&& 0 <= k < build_laws::blocks_of(m, is_error).len()
            &&& build_laws::blocks_of(m, is_error)[k] == passage(lines, b, i)
        }),
{
    let lines = text::lines_of(output);
    let r = lemma_block_read(output, is_error, b, i);
    lemma_told_some(lines, b, i);
    let c = r.closed();
    let k = rank(lines, b, is_error);
    assert(build_laws::blocks_of(c, is_error)[k] == passage(lines, b, i));
    if i + 1 < lines.len() {
        let next = lines[i + 1];
        build_laws::lemma_begins(lines, i + 1);
        if build_laws::begins(lines, i + 1, true) {
            lemma_blocks_kept(lines, i + 2, r.opened(true, next), is_error);
        } else if build_laws::begins(lines, i + 1, false) {
            lemma_blocks_kept(lines, i + 2, r.opened(false, next), is_error);
        } else if text::blank(next) {
            lemma_blank_kind(next);
            lemma_blocks_kept(lines, i + 2, c, is_error);
        } else {
            reveal_strlit("warn: ");
            reveal_strlit("error[");
            reveal_strlit("error:");
            reveal_strlit("warn[");
            build_laws::lemma_prefix("warn: "@, next, 0);
            build_laws::lemma_prefix("warn: "@, next, 4);
            build_laws::lemma_small_letter(next);
            if "error["@.is_prefix_of(next) {
                build_laws::lemma_prefix("error["@, next, 0);
            }
            if "error:"@.is_prefix_of(next) {
                build_laws::lemma_prefix("error:"@, next, 0);
            }
            if "warn["@.is_prefix_of(next) {
                build_laws::lemma_prefix("warn["@, next, 4);
            }
            lemma_blocks_kept(lines, i + 2, c, is_error);
        }
    }
}

proof fn lemma_blank_kind(line: Seq<char>)
    requires
        text::blank(line),
    ensures
        build_output::line_kind(line) is Other,
{
    reveal_strlit("Compiling");
    reveal_strlit("Checking");
    reveal_strlit("Blocking waiting for file lock");
    reveal_strlit("Downloading");
    reveal_strlit("Downloaded");
    reveal_strlit("Locking");
    reveal_strlit("Finished");
    reveal_strlit("error[");
    reveal_strlit("error:");
    reveal_strlit("warn[");
    reveal_strlit("warn: ");
    reveal_strlit("warning:");
    text::lemma_trimmed_start_at(line, line.len() as int);
    if "error["@.is_prefix_of(line) {
        build_laws::lemma_prefix("error["@, line, 0);
        assert(text::is_white(line[0]));
    }
    if "error:"@.is_prefix_of(line) {
        build_laws::lemma_prefix("error:"@, line, 0);
        assert(text::is_white(line[0]));
    }
    if "warn["@.is_prefix_of(line) {
        build_laws::lemma_prefix("warn["@, line, 0);
        assert(text::is_white(line[0]));
    }
    if "warn: "@.is_prefix_of(line) {
        build_laws::lemma_prefix("warn: "@, line, 0);
        assert(text::is_white(line[0]));
    }
    if "warning:"@.is_prefix_of(line) {
        build_laws::lemma_prefix("warning:"@, line, 0);
        assert(text::is_white(line[0]));
    }
    lemma_plain_kind(line);
}

/// A number and what it counts, which for any number but one takes an `s`.
pub open spec fn several(n: nat, one: Seq<char>) -> Seq<char> {
    number::decimal(n) + one + (if n == 1 {
        seq![]
    } else {
        "s"@
    })
}

/// The blocks of one kind with a blank line between neighbours; of more than fifteen, the first
/// fifteen and the number of the others.
pub open spec fn section(blocks: Seq<Seq<char>>, noun: Seq<char>) -> Seq<char> {
    if blocks.len() == 0 {
        seq![]
    } else if blocks.len() <= 15 {
        text::joined(blocks, "\n\n"@) + "\n"@
    } else {
        text::joined(blocks.take(15), "\n\n"@) + "\n\n\n... +"@ + number::decimal(
            (blocks.len() - 15) as nat,
        ) + " more "@ + noun + "\n"@
    }
}

/// The last line from `i` on that says that the build is finished, without the white space at its
/// start; `otherwise` where there is none.
pub open spec fn last_finished(lines: Seq<Seq<char>>, i: int, otherwise: Seq<char>) -> Seq<char>
    decreases lines.len() - i,
{
    if i >= lines.len() {
        otherwise
    } else {
        let start = text::trimmed_start(lines[i]);
        last_finished(
            lines,
            i + 1,
            if "Finished"@.is_prefix_of(start) {
                start
            } else {
                otherwise
            },
        )
    }
}

proof fn lemma_finished_kind(line: Seq<char>)
    ensures
        "Finished"@.is_prefix_of(text::trimmed_start(line)) == (build_output::line_kind(
            line,
        ) is Finished),
{
    reveal_strlit("Compiling");
    reveal_strlit("Checking");
    reveal_strlit("Blocking waiting for file lock");
    reveal_strlit("Downloading");
    reveal_strlit("Downloaded");
    reveal_strlit("Locking");
    reveal_strlit("Finished");
    let s = text::trimmed_start(line);
    if "Finished"@.is_prefix_of(s) {
        build_laws::lemma_prefix("Finished"@, s, 0);
        if "Compiling"@.is_prefix_of(s) {
            build_laws::lemma_prefix("Compiling"@, s, 0);
        }
        if "Checking"@.is_prefix_of(s) {
            build_laws::lemma_prefix("Checking"@, s, 0);
        }
        if "Blocking waiting for file lock"@.is_prefix_of(s) {
            build_laws::lemma_prefix("Blocking waiting for file lock"@, s, 0);
        }
        if "Downloading"@.is_prefix_of(s) {
            build_laws::lemma_prefix("Downloading"@, s, 0);
        }
        if "Downloaded"@.is_prefix_of(s) {
            build_laws::lemma_prefix("Downloaded"@, s, 0);
        }
        if "Locking"@.is_prefix_of(s) {
            build_laws::lemma_prefix("Locking"@, s, 0);
        }
    }
}

proof fn lemma_finished_passed_over(lines: Seq<Seq<char>>, i: int, f: Seq<char>)
    requires
        0 <= i <= lines.len(),
    ensures
        last_finished(lines, i, f) == last_finished(
            lines,
            noise::noise_end(Stage::Build, lines, i),
            f,
        ),
    decreases lines.len() - i,
{
    if i < lines.len() && !noise::ends_noise(Stage::Build, lines[i]) {
        lemma_finished_passed_over(lines, i + 1, f);
    }
}

proof fn lemma_scan_finished(lines: Seq<Seq<char>>, i: int, m: BuildModel)
    requires
        0 <= i <= lines.len(),
    ensures
        build_output::scanned(lines, i, m).closed().finished == last_finished(
            lines,
            i,
            m.finished,
        ),
    decreases lines.len() - i,
{
    if i < lines.len() {
        let line = lines[i];
        lemma_finished_kind(line);
        match build_output::line_kind(line) {
            BuildLine::Package => {
                lemma_scan_finished(lines, i + 1, BuildModel { compiled: m.compiled + 1, ..m });
            },
            BuildLine::Finished => {
                lemma_scan_finished(
                    lines,
                    i + 1,
                    BuildModel { finished: text::trimmed_start(line), ..m },
                );
            },
            BuildLine::Fetch | BuildLine::Aborted | BuildLine::Tally => {
                lemma_scan_finished(lines, i + 1, m);
            },
            BuildLine::Noise => {
                noise::lemma_noise_end(Stage::Build, lines, i + 1);
                lemma_finished_passed_over(lines, i + 1, m.finished);
                lemma_scan_finished(lines, noise::noise_end(Stage::Build, lines, i + 1), m);
            },
            BuildLine::Error => {
                lemma_scan_finished(lines, i + 1, m.opened(true, line));
            },
            BuildLine::CodedWarning => {
                lemma_scan_finished(lines, i + 1, m.opened(false, line));
            },
            BuildLine::PlainWarning => {
                if build_output::pointer_follows(lines, i + 1) {
                    lemma_scan_finished(lines, i + 1, m.opened(false, line));
                } else {
                    lemma_scan_finished(lines, i + 1, m.closed());
                }
            },
            BuildLine::Other => {
                lemma_scan_finished(lines, i + 1, m.continued(line));
            },
        }
    }
}

proof fn lemma_first_blocks(blocks: Seq<Seq<char>>, k: int)
    requires
        0 < k <= blocks.len(),
    ensures
        build_output::first_blocks(blocks, k) == text::joined(blocks.take(k), "\n\n"@) + "\n"@ + (
        if k < blocks.len() {
            "\n"@
        } else {
            ""@
        }),
    decreases k,
{
    reveal_strlit("\n");
    reveal_strlit("\n\n");
    reveal_strlit("");
    let end = if k < blocks.len() {
        "\n"@
    } else {
        ""@
    };
    if k == 1 {
        assert(build_output::first_blocks(blocks, 0) =~= Seq::<char>::empty());
        assert(blocks.take(1) =~= seq![blocks[0]]);
        assert(build_output::first_blocks(blocks, 1) =~= blocks[0] + "\n"@ + end);
    } else {
        lemma_first_blocks(blocks, k - 1);
        let before = blocks.take(k - 1);
        containment::lemma_joined_push(before, blocks[k - 1], "\n\n"@);
        assert(blocks.take(k) =~= before.push(blocks[k - 1]));
        assert("\n"@ + "\n"@ =~= "\n\n"@);
        assert(build_output::first_blocks(blocks, k) =~= text::joined(blocks.take(k), "\n\n"@)
            + "\n"@ + end);
    }
}

proof fn lemma_section(blocks: Seq<Seq<char>>, noun: Seq<char>)
    ensures
        build_output::block_list(blocks, noun) == section(blocks, noun),
{
    reveal_strlit("\n");
    reveal_strlit("");
    reveal_strlit("\n... +");
    reveal_strlit("\n\n\n... +");
    let n: int = if blocks.len() > 15 {
        15
    } else {
        blocks.len() as int
    };
    if blocks.len() > 0 {
        lemma_first_blocks(blocks, n);
    }
    if blocks.len() > 15 {
        assert("\n"@ + "\n"@ + "\n... +"@ =~= "\n\n\n... +"@);
        assert(build_output::block_list(blocks, noun) =~= section(blocks, noun));
    } else {
        assert(blocks.take(n) =~= blocks);
        assert(build_output::block_list(blocks, noun) =~= section(blocks, noun));
    }
}

/// What a view that is not the line of success shows: how many lines begin errors and warnings
/// and how many name packages; a rule; the errors and the warnings, with a blank line between
/// neighbours; and the last line that says that the build is finished.
pub proof fn law_view_whole(output: Seq<char>)
    requires
        ({
            let lines = text::lines_of(output);
            ||| build_laws::diagnostic_lines(lines, 0, true).len() > 0
            ||| build_laws::diagnostic_lines(lines, 0, false).len() > 0
        }),
    ensures
        ({
            let lines = text::lines_of(output);
            let m = build_output::build_model(output);
            let errors = build_laws::diagnostic_lines(lines, 0, true).len();
            let warnings = build_laws::diagnostic_lines(lines, 0, false).len();
            let finished = last_finished(lines, 0, seq![]);
            &&& m.errors.len() == errors
            &&& m.warnings.len() == warnings
            &&& build_output::build_report(m) == text::trimmed(
                "scarb build: "@ + (if errors > 0 {
                    several(errors, " error"@) + ", "@
                } else {
                    seq![]
                }) + several(warnings, " warning"@) + " ("@ + number::decimal(
                    build_laws::package_lines(lines, 0),
                ) + " packages)\n"@ + "═══════════════════════════════════════\n"@ + section(
                    m.errors,
                    "errors"@,
                ) + (if errors > 0 && warnings > 0 {
                    "\n"@
                } else {
                    seq![]
                }) + section(m.warnings, "warnings"@) + (if finished.len() > 0 {
                    "\n"@ + finished
                } else {
                    seq![]
                }),
            )
        }),
{
    reveal_strlit("");
    reveal_strlit("s");
    reveal_strlit(" error");
    reveal_strlit(" errors");
    reveal_strlit(" warning");
    reveal_strlit(" warnings");
    let lines = text::lines_of(output);
    let m = build_output::build_model(output);
    build_laws::law_nothing_lost(output);
    lemma_scan_finished(lines, 0, BuildModel::empty());
    lemma_section(m.errors, "errors"@);
    lemma_section(m.warnings, "warnings"@);
    assert(" error"@ + "s"@ =~= " errors"@);
    assert(" warning"@ + "s"@ =~= " warnings"@);
    let errors = m.errors.len();
    let warnings = m.warnings.len();
    assert(several(errors, " error"@) =~= counts::quantity(errors, " error"@, " errors"@));
    assert(several(warnings, " warning"@) =~= counts::quantity(
        warnings,
        " warning"@,
        " warnings"@,
    ));
    let finished = last_finished(lines, 0, seq![]);
    let rule = "═══════════════════════════════════════\n"@;
    let whole = "scarb build: "@ + (if errors > 0 {
        several(errors, " error"@) + ", "@
    } else {
        seq![]
    }) + several(warnings, " warning"@) + " ("@ + number::decimal(
        build_laws::package_lines(lines, 0),
    ) + " packages)\n"@ + rule + section(m.errors, "errors"@) + (if errors > 0 && warnings > 0 {
        "\n"@
    } else {
        seq![]
    }) + section(m.warnings, "warnings"@) + (if finished.len() > 0 {
        "\n"@ + finished
    } else {
        seq![]
    });
    assert(build_output::headline(m) + rule + build_output::shown_blocks(m) + build_output::ending(
        m,
    ) =~= whole);
}

/// Whether a line stands outside the warning of scarb about itself that the lines before it may
/// belong to.
pub open spec fn ends_self_warning(line: Seq<char>) -> bool {
    let start = text::trimmed_start(line);
    ||| text::blank(line)
    ||| "warn"@.is_prefix_of(line)
    ||| "error"@.is_prefix_of(line)
    ||| "Compiling"@.is_prefix_of(start)
    ||| "Checking"@.is_prefix_of(start)
    ||| "Finished"@.is_prefix_of(start)
}

/// What the given lines hold.
pub open spec fn model_of(lines: Seq<Seq<char>>) -> BuildModel {
    build_output::scanned(lines, 0, BuildModel::empty()).closed()
}

proof fn lemma_noise_end_shift(lines: Seq<Seq<char>>, k: int, i: int)
    requires
        0 <= k <= k + i <= lines.len(),
    ensures
        noise::noise_end(Stage::Build, lines, k + i) == k + noise::noise_end(
            Stage::Build,
            lines.skip(k),
            i,
        ),
    decreases lines.len() - k - i,
{
    if k + i < lines.len() {
        assert(lines.skip(k)[i] == lines[k + i]);
        if !noise::ends_noise(Stage::Build, lines[k + i]) {
            lemma_noise_end_shift(lines, k, i + 1);
        }
    }
}

proof fn lemma_pointer_shift(lines: Seq<Seq<char>>, k: int, i: int)
    requires
        0 <= k <= k + i <= lines.len(),
    ensures
        build_output::pointer_follows(lines, k + i) == build_output::pointer_follows(
            lines.skip(k),
            i,
        ),
    decreases lines.len() - k - i,
{
    if k + i < lines.len() {
        assert(lines.skip(k)[i] == lines[k + i]);
        if text::blank(lines[k + i]) {
            lemma_pointer_shift(lines, k, i + 1);
        }
    }
}

/// Reading on depends only on the lines that are still to come.
proof fn lemma_scan_shift(lines: Seq<Seq<char>>, k: int, i: int, m: BuildModel)
    requires
        0 <= k <= k + i <= lines.len(),
    ensures
        build_output::scanned(lines, k + i, m) == build_output::scanned(lines.skip(k), i, m),
    decreases lines.len() - k - i,
{
    if k + i < lines.len() {
        let line = lines[k + i];
        assert(lines.skip(k)[i] == line);
        match build_output::line_kind(line) {
            BuildLine::Package => {
                lemma_scan_shift(lines, k, i + 1, BuildModel { compiled: m.compiled + 1, ..m });
            },
            BuildLine::Finished => {
                lemma_scan_shift(
                    lines,
                    k,
                    i + 1,
                    BuildModel { finished: text::trimmed_start(line), ..m },
                );
            },
            BuildLine::Fetch | BuildLine::Aborted | BuildLine::Tally => {
                lemma_scan_shift(lines, k, i + 1, m);
            },
            BuildLine::Noise => {
                lemma_noise_end_shift(lines, k, i + 1);
                noise::lemma_noise_end(Stage::Build, lines, k + i + 1);
                let end = noise::noise_end(Stage::Build, lines.skip(k), i + 1);
                lemma_scan_shift(lines, k, end, m);
            },
            BuildLine::Error => {
                lemma_scan_shift(lines, k, i + 1, m.opened(true, line));
            },
            BuildLine::CodedWarning => {
                lemma_scan_shift(lines, k, i + 1, m.opened(false, line));
            },
            BuildLine::PlainWarning => {
                lemma_pointer_shift(lines, k, i + 1);
                if build_output::pointer_follows(lines, k + i + 1) {
                    lemma_scan_shift(lines, k, i + 1, m.opened(false, line));
                } else {
                    lemma_scan_shift(lines, k, i + 1, m.closed());
                }
            },
            BuildLine::Other => {
                lemma_scan_shift(lines, k, i + 1, m.continued(line));
            },
        }
    }
}

/// A warning ends at the first of the given lines or where they give way to one that ends it.
proof fn lemma_end_within(a: Seq<Seq<char>>, x: Seq<Seq<char>>, y: Seq<Seq<char>>, i: int)
    requires
        0 <= i <= a.len(),
        x.len() > 0,
        y.len() > 0,
        noise::ends_noise(Stage::Build, x[0]),
        noise::ends_noise(Stage::Build, y[0]),
    ensures
        i <= noise::noise_end(Stage::Build, a + x, i) <= a.len(),
        noise::noise_end(Stage::Build, a + x, i) == noise::noise_end(Stage::Build, a + y, i),
    decreases a.len() - i,
{
    if i == a.len() {
        assert((a + x)[i] == x[0]);
        assert((a + y)[i] == y[0]);
    } else {
        assert((a + x)[i] == a[i]);
        assert((a + y)[i] == a[i]);
        if !noise::ends_noise(Stage::Build, a[i]) {
            lemma_end_within(a, x, y, i + 1);
        }
    }
}

/// Where what follows is read alike, so is the whole.
proof fn lemma_alike(a: Seq<Seq<char>>, x: Seq<Seq<char>>, y: Seq<Seq<char>>, m: BuildModel)
    requires
        x.len() > 0,
        y.len() > 0,
        noise::ends_noise(Stage::Build, x[0]),
        noise::ends_noise(Stage::Build, y[0]),
        forall|n: BuildModel| #[trigger]
            build_output::scanned(x, 0, n) == build_output::scanned(y, 0, n),
        forall|j: int|
            0 <= j < a.len() ==> !(build_output::line_kind(#[trigger] a[j]) is PlainWarning),
    ensures
        build_output::scanned(a + x, 0, m) == build_output::scanned(a + y, 0, m),
    decreases a.len(),
{
    if a.len() == 0 {
        assert(a + x =~= x);
        assert(a + y =~= y);
    } else {
        let line = a[0];
        let ax = a + x;
        let ay = a + y;
        assert(ax[0] == line && ay[0] == line);
        let kind = build_output::line_kind(line);
        let k: int = if kind is Noise {
            noise::noise_end(Stage::Build, ax, 1)
        } else {
            1
        };
        lemma_end_within(a, x, y, 1);
        let less = a.skip(k);
        assert(ax.skip(k) =~= less + x);
        assert(ay.skip(k) =~= less + y);
        assert forall|j: int| 0 <= j < less.len() implies !(build_output::line_kind(
            #[trigger] less[j],
        ) is PlainWarning) by {
            assert(less[j] == a[j + k]);
        }
        let next = match kind {
            BuildLine::Package => BuildModel { compiled: m.compiled + 1, ..m },
            BuildLine::Finished => BuildModel { finished: text::trimmed_start(line), ..m },
            BuildLine::Error => m.opened(true, line),
            BuildLine::CodedWarning => m.opened(false, line),
            BuildLine::Other => m.continued(line),
            _ => m,
        };
        assert(!(build_output::line_kind(a[0]) is PlainWarning));
        assert(build_output::scanned(ax, 0, m) == build_output::scanned(ax, k, next));
        assert(build_output::scanned(ay, 0, m) == build_output::scanned(ay, k, next));
        lemma_scan_shift(ax, k, 0, next);
        lemma_scan_shift(ay, k, 0, next);
        lemma_alike(less, x, y, next);
    }
}

proof fn lemma_self_warning_skipped(
    w: Seq<char>,
    inner: Seq<Seq<char>>,
    x: Seq<Seq<char>>,
    n: BuildModel,
)
    requires
        build_laws::is_self_warning(w),
        forall|j: int| 0 <= j < inner.len() ==> !ends_self_warning(#[trigger] inner[j]),
        x.len() > 0,
        ends_self_warning(x[0]),
    ensures
        build_output::scanned(seq![w] + inner + x, 0, n) == build_output::scanned(x, 0, n),
{
    let all = seq![w] + inner + x;
    let k = inner.len() as int + 1;
    assert(all[0] == w);
    lemma_self_warning_kind(w);
    lemma_inner_end(all, 1, k);
    lemma_scan_shift(all, k, 0, n);
    assert(all.skip(k) =~= x);
}

proof fn lemma_inner_end(all: Seq<Seq<char>>, i: int, k: int)
    requires
        0 <= i <= k < all.len(),
        forall|j: int| i <= j < k ==> !ends_self_warning(#[trigger] all[j]),
        ends_self_warning(all[k]),
    ensures
        noise::noise_end(Stage::Build, all, i) == k,
    decreases k - i,
{
    if i < k {
        assert(!ends_self_warning(all[i]));
        lemma_inner_end(all, i + 1, k);
    }
}

proof fn lemma_self_warning_kind(line: Seq<char>)
    requires
        build_laws::is_self_warning(line),
    ensures
        build_output::line_kind(line) is Noise,
        ends_self_warning(line),
{
    reveal_strlit("warn");
    reveal_strlit("warn: `scarb cairo-test` is deprecated");
    reveal_strlit("warn: `cairo_test` plugin not found");
    reveal_strlit("warn: artefacts produced by this build may be hard to utilize");
    let p = if "warn: `scarb cairo-test` is deprecated"@.is_prefix_of(line) {
        "warn: `scarb cairo-test` is deprecated"@
    } else if "warn: `cairo_test` plugin not found"@.is_prefix_of(line) {
        "warn: `cairo_test` plugin not found"@
    } else {
        "warn: artefacts produced by this build may be hard to utilize"@
    };
    build_laws::lemma_prefix(p, line, 0);
    build_laws::lemma_small_letter(line);
    assert(line.subrange(0, 4) =~= line.subrange(0, p.len() as int).subrange(0, 4));
    assert(p.subrange(0, 4) =~= "warn"@);
}

/// A warning of scarb about itself, with all the lines up to the next that ends it, changes
/// nothing, wherever it stands after lines that begin no warning without a code.
pub proof fn law_self_warning_changes_nothing(
    a: Seq<Seq<char>>,
    w: Seq<char>,
    inner: Seq<Seq<char>>,
    x: Seq<Seq<char>>,
)
    requires
        build_laws::is_self_warning(w),
        forall|j: int| 0 <= j < inner.len() ==> !ends_self_warning(#[trigger] inner[j]),
        x.len() > 0,
        ends_self_warning(x[0]),
        forall|j: int| 0 <= j < a.len() ==> !"warn: "@.is_prefix_of(#[trigger] a[j]),
    ensures
        model_of(a + (seq![w] + inner + x)) == model_of(a + x),
{
    let whole = seq![w] + inner + x;
    assert(whole[0] == w);
    lemma_self_warning_kind(w);
    assert forall|n: BuildModel| #[trigger]
        build_output::scanned(whole, 0, n) == build_output::scanned(x, 0, n) by {
        lemma_self_warning_skipped(w, inner, x, n);
    }
    assert forall|j: int| 0 <= j < a.len() implies !(build_output::line_kind(
        #[trigger] a[j],
    ) is PlainWarning) by {
        assert(!"warn: "@.is_prefix_of(a[j]));
    }
    lemma_alike(a, whole, x, BuildModel::empty());
}

} // verus!
