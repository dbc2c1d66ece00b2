//! How the lines of a test run's output make its failures, its summaries and its view.
use crate::number;
use crate::pattern;
use crate::scarb_cmd::build_laws;
use crate::scarb_cmd::noise;
use crate::scarb_cmd::noise::Stage;
use crate::scarb_cmd::test_laws;
use crate::scarb_cmd::test_output;
use crate::scarb_cmd::test_output::{AggregatedTestResult, TestLine, TestModel};
use crate::text;
use vstd::prelude::*;

verus! {

/// Whether a line stands outside the warning of scarb about itself that the lines before it may
/// belong to.
pub open spec fn ends_self_warning(line: Seq<char>) -> bool {
    let start = text::trimmed_start(line);
    ||| text::blank(line)
    ||| "warn"@.is_prefix_of(line)
    ||| "error"@.is_prefix_of(line)
    ||| "running"@.is_prefix_of(line)
    ||| "Compiling"@.is_prefix_of(start)
    ||| "Blocking"@.is_prefix_of(start)
}

/// Whether line `k` belongs to a warning of scarb about itself that an earlier line begins.
pub open spec fn is_swallowed(lines: Seq<Seq<char>>, k: int) -> bool {
    exists|j: int|
        {
            &&& 0 <= j < k
            &&& build_laws::is_self_warning(#[trigger] lines[j])
            &&& forall|l: int| j < l <= k ==> !ends_self_warning(#[trigger] lines[l])
        }
}

/// Whether a line tells that a test passed.
pub open spec fn is_passed(line: Seq<char>) -> bool {
    "test "@.is_prefix_of(line) && "... ok"@.is_suffix_of(line)
}

/// Whether a line tells of compiling, fetching or finishing, or that tests start or passed.
pub open spec fn is_progress(line: Seq<char>) -> bool {
    let start = text::trimmed_start(line);
    ||| "Compiling"@.is_prefix_of(start)
    ||| "Checking"@.is_prefix_of(start)
    ||| "Blocking waiting for file lock"@.is_prefix_of(start)
    ||| "Downloading"@.is_prefix_of(start)
    ||| "Downloaded"@.is_prefix_of(start)
    ||| "Locking"@.is_prefix_of(start)
    ||| "Updating"@.is_prefix_of(start)
    ||| "Finished"@.is_prefix_of(start)
    ||| "running "@.is_prefix_of(line)
    ||| is_passed(line)
}

/// Whether a line sums up a suite.
pub open spec fn is_summary(line: Seq<char>) -> bool {
    "test result:"@.is_prefix_of(line) && !is_passed(line)
}

/// Whether a heading stands before line `k` with no summary between them.
pub open spec fn in_section(lines: Seq<Seq<char>>, k: int) -> bool {
    exists|h: int|
        {
            &&& 0 <= h < k
            &&& #[trigger] lines[h] == "failures:"@
            &&& !is_swallowed(lines, h)
            &&& forall|j: int|
                h < j < k && !is_swallowed(lines, j) ==> !is_summary(#[trigger] lines[j])
        }
}

/// Whether line `k` belongs to a list of failures.
pub open spec fn is_told(lines: Seq<Seq<char>>, k: int) -> bool {
    &&& in_section(lines, k)
    &&& !is_swallowed(lines, k)
    &&& !build_laws::is_self_warning(lines[k])
    &&& !is_progress(lines[k])
    &&& !is_summary(lines[k])
    &&& lines[k] != "failures:"@
}

/// The lines before `n` that belong to a list of failures.
pub open spec fn told_before(lines: Seq<Seq<char>>, n: int) -> Seq<Seq<char>>
    decreases n,
{
    if n <= 0 {
        seq![]
    } else if is_told(lines, n - 1) {
        told_before(lines, n - 1).push(lines[n - 1])
    } else {
        told_before(lines, n - 1)
    }
}

/// The lines before `n` that sum up a suite.
pub open spec fn summaries_before(lines: Seq<Seq<char>>, n: int) -> Seq<Seq<char>>
    decreases n,
{
    if n <= 0 {
        seq![]
    } else if is_summary(lines[n - 1]) && !is_swallowed(lines, n - 1) {
        summaries_before(lines, n - 1).push(lines[n - 1])
    } else {
        summaries_before(lines, n - 1)
    }
}

/// Whether a line parts paragraphs: it is blank and not indented.
pub open spec fn parts(line: Seq<char>) -> bool {
    text::blank(line) && !"    "@.is_prefix_of(line)
}

/// How many lines at the end of `lines` stand after the last one that parts paragraphs.
pub open spec fn last_run(lines: Seq<Seq<char>>) -> int
    decreases lines.len(),
{
    if lines.len() == 0 || parts(lines.last()) {
        0
    } else {
        1 + last_run(lines.drop_last())
    }
}

/// The paragraphs that `lines` make: the longest runs of lines that part nothing.
pub open spec fn paragraphs(lines: Seq<Seq<char>>) -> Seq<Seq<char>>
    decreases lines.len(),
{
    let n = last_run(lines);
    if lines.len() == 0 {
        seq![]
    } else if n <= 0 || n > lines.len() {
        paragraphs(lines.drop_last())
    } else {
        paragraphs(lines.take(lines.len() - n)).push(
            text::joined(lines.skip(lines.len() - n), "\n"@),
        )
    }
}

proof fn lemma_last_run(lines: Seq<Seq<char>>)
    ensures
        0 <= last_run(lines) <= lines.len(),
        last_run(lines.take(lines.len() - last_run(lines))) == 0,
    decreases lines.len(),
{
    if lines.len() == 0 || parts(lines.last()) {
        assert(lines.take(lines.len() as int) =~= lines);
    } else {
        let rest = lines.drop_last();
        lemma_last_run(rest);
        assert(lines.take(lines.len() - last_run(lines)) =~= rest.take(
            rest.len() - last_run(rest),
        ));
    }
}

/// What the scan holds, where it has read `told` of lists of failures.
spec fn matches(told: Seq<Seq<char>>, m: TestModel) -> bool {
    let n = last_run(told);
    &&& m.current == told.skip(told.len() - n)
    &&& m.failures == paragraphs(told.take(told.len() - n))
}

proof fn lemma_matches_closed(told: Seq<Seq<char>>, m: TestModel)
    requires
        matches(told, m),
    ensures
        m.closed().failures == paragraphs(told),
{
    let n = last_run(told);
    lemma_last_run(told);
    if told.len() == 0 {
        assert(told.take(0) =~= told);
    } else if n == 0 {
        assert(told.take(told.len() as int) =~= told);
    }
}

proof fn lemma_matches_push(told: Seq<Seq<char>>, m: TestModel, line: Seq<char>)
    requires
        matches(told, m),
    ensures
        parts(line) ==> matches(told.push(line), m.closed()),
        !parts(line) ==> matches(
            told.push(line),
            (TestModel { current: m.current.push(line), ..m }),
        ),
{
    let all = told.push(line);
    let n = last_run(told);
    lemma_last_run(told);
    lemma_last_run(all);
    assert(all.drop_last() =~= told);
    assert(all.last() == line);
    if parts(line) {
        lemma_matches_closed(told, m);
        assert(all.take(all.len() as int) =~= all);
        assert(all.skip(all.len() as int) =~= Seq::<Seq<char>>::empty());
        assert(paragraphs(all) == paragraphs(told));
        assert(m.closed().current =~= Seq::<Seq<char>>::empty());
    } else {
        assert(last_run(all) == n + 1);
        assert(all.skip(all.len() - (n + 1)) =~= told.skip(told.len() - n).push(line));
        assert(all.take(all.len() - (n + 1)) =~= told.take(told.len() - n));
    }
}

/// A line is read by itself where no warning of scarb about itself takes it in.
proof fn lemma_not_swallowed_next(lines: Seq<Seq<char>>, i: int)
    requires
        0 <= i < lines.len(),
        !is_swallowed(lines, i),
        !build_laws::is_self_warning(lines[i]),
    ensures
        !is_swallowed(lines, i + 1),
{
    if is_swallowed(lines, i + 1) {
        let j = choose|j: int|
            {
                &&& 0 <= j < i + 1
                &&& build_laws::is_self_warning(#[trigger] lines[j])
                &&& forall|l: int| j < l <= i + 1 ==> !ends_self_warning(#[trigger] lines[l])
            };
        assert(build_laws::is_self_warning(lines[j]));
        assert(j < i);
        assert(is_swallowed(lines, i));
    }
}

proof fn lemma_swallowed_run(lines: Seq<Seq<char>>, i: int, k: int)
    requires
        0 <= i < lines.len(),
        build_laws::is_self_warning(lines[i]),
        i < k <= lines.len(),
        k <= noise::noise_end(Stage::Test, lines, i + 1),
    ensures
        k < noise::noise_end(Stage::Test, lines, i + 1) ==> is_swallowed(lines, k),
        k == noise::noise_end(Stage::Test, lines, i + 1) && k < lines.len() ==> !is_swallowed(
            lines,
            k,
        ),
{
    let end = noise::noise_end(Stage::Test, lines, i + 1);
    noise::lemma_noise_end(Stage::Test, lines, i + 1);
    lemma_end_ends(lines, i + 1);
    if k < end {
        assert forall|l: int| i < l <= k implies !ends_self_warning(#[trigger] lines[l]) by {
            assert(!noise::ends_noise(Stage::Test, lines[l]));
        }
        assert(is_swallowed(lines, k));
    } else if k < lines.len() {
        assert(ends_self_warning(lines[k]));
        if is_swallowed(lines, k) {
            let j = choose|j: int|
                {
                    &&& 0 <= j < k
                    &&& build_laws::is_self_warning(#[trigger] lines[j])
                    &&& forall|l: int| j < l <= k ==> !ends_self_warning(#[trigger] lines[l])
                };
            assert(!ends_self_warning(lines[k]));
        }
    }
}

proof fn lemma_end_ends(lines: Seq<Seq<char>>, i: int)
    requires
        0 <= i <= lines.len(),
    ensures
        ({
            let end = noise::noise_end(Stage::Test, lines, i);
            i <= end <= lines.len() && (end < lines.len() ==> noise::ends_noise(
                Stage::Test,
                lines[end],
            ))
        }),
    decreases lines.len() - i,
{
    if i < lines.len() && !noise::ends_noise(Stage::Test, lines[i]) {
        lemma_end_ends(lines, i + 1);
    }
}

proof fn lemma_section_next(lines: Seq<Seq<char>>, i: int)
    requires
        0 <= i < lines.len(),
    ensures
        is_swallowed(lines, i) ==> in_section(lines, i + 1) == in_section(lines, i),
        !is_swallowed(lines, i) && lines[i] == "failures:"@ ==> in_section(lines, i + 1),
        !is_swallowed(lines, i) && is_summary(lines[i]) ==> !in_section(lines, i + 1),
        !is_swallowed(lines, i) && lines[i] != "failures:"@ && !is_summary(lines[i]) ==> in_section(
            lines,
            i + 1,
        ) == in_section(lines, i),
{
    reveal_strlit("failures:");
    reveal_strlit("test result:");
    if is_summary(lines[i]) {
        build_laws::lemma_prefix("test result:"@, lines[i], 0);
        assert(lines[i] != "failures:"@);
    }
    if !is_swallowed(lines, i) && lines[i] == "failures:"@ {
        assert(in_section(lines, i + 1));
    }
    if in_section(lines, i + 1) {
        let h = choose|h: int|
            {
                &&& 0 <= h < i + 1
                &&& #[trigger] lines[h] == "failures:"@
                &&& !is_swallowed(lines, h)
                &&& forall|j: int|
                    h < j < i + 1 && !is_swallowed(lines, j) ==> !is_summary(#[trigger] lines[j])
            };
        assert(lines[h] == "failures:"@);
        if h < i {
            assert(is_swallowed(lines, i) || !is_summary(lines[i]));
            assert(in_section(lines, i));
        }
    }
    if in_section(lines, i) && (is_swallowed(lines, i) || !is_summary(lines[i])) {
        let h = choose|h: int|
            {
                &&& 0 <= h < i
                &&& #[trigger] lines[h] == "failures:"@
                &&& !is_swallowed(lines, h)
                &&& forall|j: int|
                    h < j < i && !is_swallowed(lines, j) ==> !is_summary(#[trigger] lines[j])
            };
        assert(lines[h] == "failures:"@);
        assert(in_section(lines, i + 1));
    }
}

/// How a line is read that stands by itself.
proof fn lemma_kinds(line: Seq<char>)
    ensures
        ({
            let kind = test_output::line_kind(line);
            &&& kind is Noise <==> build_laws::is_self_warning(line)
            &&& !build_laws::is_self_warning(line) ==> (kind is Dropped <==> is_progress(line))
            &&& !build_laws::is_self_warning(line) && !is_progress(line) ==> (kind is Failures
                <==> line == "failures:"@)
            &&& line == "failures:"@ ==> kind is Failures
            &&& is_summary(line) ==> kind is Other
            &&& build_laws::is_self_warning(line) ==> !is_progress(line) && !is_summary(line)
        }),
{
    reveal_strlit("failures:");
    reveal_strlit("test result:");
    reveal_strlit("test ");
    reveal_strlit("running ");
    reveal_strlit("warn: `scarb cairo-test` is deprecated");
    reveal_strlit("warn: `cairo_test` plugin not found");
    reveal_strlit("warn: artefacts produced by this build may be hard to utilize");
    let small = line.len() > 0 && (line[0] == 'w' || line[0] == 't' || line[0] == 'f');
    if "warn: `scarb cairo-test` is deprecated"@.is_prefix_of(line) {
        build_laws::lemma_prefix("warn: `scarb cairo-test` is deprecated"@, line, 0);
    }
    if "warn: `cairo_test` plugin not found"@.is_prefix_of(line) {
        build_laws::lemma_prefix("warn: `cairo_test` plugin not found"@, line, 0);
    }
    if "warn: artefacts produced by this build may be hard to utilize"@.is_prefix_of(line) {
        let p = "warn: artefacts produced by this build may be hard to utilize"@;
        build_laws::lemma_prefix(p, line, 0);
    }
    if "test result:"@.is_prefix_of(line) {
        build_laws::lemma_prefix("test result:"@, line, 0);
    }
    if "test "@.is_prefix_of(line) {
        build_laws::lemma_prefix("test "@, line, 0);
    }
    if "running "@.is_prefix_of(line) {
        build_laws::lemma_prefix("running "@, line, 0);
    }
    if small {
        lemma_small_letter(line);
    }
}

proof fn lemma_small_letter(line: Seq<char>)
    requires
        line.len() > 0,
        line[0] == 'w' || line[0] == 't' || line[0] == 'f',
    ensures
        !test_output::compile_progress(line),
{
    reveal_strlit("Compiling");
    reveal_strlit("Checking");
    reveal_strlit("Blocking waiting for file lock");
    reveal_strlit("Downloading");
    reveal_strlit("Downloaded");
    reveal_strlit("Locking");
    reveal_strlit("Updating");
    reveal_strlit("Finished");
    let s = text::trimmed_start(line);
    assert(s == line);
    if "Compiling"@.is_prefix_of(s) {
        build_laws::lemma_prefix("Compiling"@, s, 0);
    }
    if "Checking"@.is_prefix_of(s) {
        build_laws::lemma_prefix("Checking"@, s, 0);
    }
    if "Blocking waiting for file lock"@.is_prefix_of(s) {
        build_laws::lemma_prefix("Blocking waiting for file lock"@, s, 0);
    }
    if "Downloading"@.is_prefix_of(s) {
        build_laws::lemma_prefix("Downloading"@, s, 0);
    }
    if "Downloaded"@.is_prefix_of(s) {
        build_laws::lemma_prefix("Downloaded"@, s, 0);
    }
    if "Locking"@.is_prefix_of(s) {
        build_laws::lemma_prefix("Locking"@, s, 0);
    }
    if "Updating"@.is_prefix_of(s) {
        build_laws::lemma_prefix("Updating"@, s, 0);
    }
    if "Finished"@.is_prefix_of(s) {
        build_laws::lemma_prefix("Finished"@, s, 0);
    }
}

/// What the scan holds where it has read the lines before `i`.
spec fn follows(lines: Seq<Seq<char>>, i: int, m: TestModel) -> bool {
    &&& m.in_failures == in_section(lines, i)
    &&& m.summaries == summaries_before(lines, i)
    &&& matches(told_before(lines, i), m)
}

/// Lines that a warning of scarb about itself takes in change nothing.
proof fn lemma_follows_over(lines: Seq<Seq<char>>, i: int, k: int, m: TestModel)
    requires
        0 <= i < lines.len(),
        !is_swallowed(lines, i),
        build_laws::is_self_warning(lines[i]),
        i < k <= noise::noise_end(Stage::Test, lines, i + 1),
        follows(lines, i, m),
    ensures
        follows(lines, k, m),
    decreases k,
{
    noise::lemma_noise_end(Stage::Test, lines, i + 1);
    lemma_kinds(lines[k - 1]);
    lemma_section_next(lines, k - 1);
    if k == i + 1 {
    } else {
        lemma_follows_over(lines, i, k - 1, m);
        lemma_swallowed_run(lines, i, k - 1);
    }
}

proof fn lemma_scan_follows(lines: Seq<Seq<char>>, i: int, m: TestModel)
    requires
        0 <= i <= lines.len(),
        i < lines.len() ==> !is_swallowed(lines, i),
        follows(lines, i, m),
    ensures
        follows(lines, lines.len() as int, test_output::scanned(lines, i, m)),
    decreases lines.len() - i,
{
    if i < lines.len() {
        let line = lines[i];
        lemma_kinds(line);
        lemma_section_next(lines, i);
        if build_laws::is_self_warning(line) {
            let end = noise::noise_end(Stage::Test, lines, i + 1);
            noise::lemma_noise_end(Stage::Test, lines, i + 1);
            lemma_follows_over(lines, i, end, m);
            lemma_swallowed_run(lines, i, end);
            lemma_scan_follows(lines, end, m);
        } else {
            lemma_not_swallowed_next(lines, i);
            match test_output::line_kind(line) {
                TestLine::Dropped => {
                    lemma_scan_follows(lines, i + 1, m);
                },
                TestLine::Failures => {
                    let next = TestModel { in_failures: true, ..m };
                    assert(told_before(lines, i + 1) == told_before(lines, i));
                    lemma_scan_follows(lines, i + 1, next);
                },
                _ => {
                    lemma_matches_push(told_before(lines, i), m, line);
                    lemma_taken_follows(lines, i, m);
                    lemma_scan_follows(lines, i + 1, m.taken(line));
                },
            }
        }
    }
}

proof fn lemma_taken_follows(lines: Seq<Seq<char>>, i: int, m: TestModel)
    requires
        0 <= i < lines.len(),
        !is_swallowed(lines, i),
        test_output::line_kind(lines[i]) is Other,
        follows(lines, i, m),
    ensures
        follows(lines, i + 1, m.taken(lines[i])),
{
    let line = lines[i];
    let told = told_before(lines, i);
    lemma_kinds(line);
    lemma_section_next(lines, i);
    lemma_matches_push(told, m, line);
    let r = m.taken(line);
    if is_summary(line) {
        assert(told_before(lines, i + 1) == told);
    } else if !m.in_failures {
        assert(told_before(lines, i + 1) == told);
    } else {
        assert(told_before(lines, i + 1) == told.push(line));
        if parts(line) {
            assert(r == m.closed());
        }
    }
}

/// The failures are the paragraphs of the lists of failures: of the lines that stand after a
/// heading with no summary between, and tell neither of progress nor of scarb itself. The
/// summaries are the lines that sum up a suite. Lines that a warning of scarb about itself takes
/// in count for nothing.
pub proof fn law_failures_are_paragraphs(output: Seq<char>)
    ensures
        ({
            let lines = text::lines_of(output);
            let m = test_output::test_model(output);
            let n = lines.len() as int;
            &&& m.failures == paragraphs(told_before(lines, n))
            &&& m.summaries == summaries_before(lines, n)
        }),
{
    let lines = text::lines_of(output);
    let n = lines.len() as int;
    let m = TestModel::empty();
    assert(told_before(lines, 0) =~= Seq::<Seq<char>>::empty());
    assert(told_before(lines, 0).skip(0) =~= Seq::<Seq<char>>::empty());
    assert(told_before(lines, 0).take(0) =~= Seq::<Seq<char>>::empty());
    assert(matches(told_before(lines, 0), m));
    lemma_scan_follows(lines, 0, m);
    let end = test_output::scanned(lines, 0, m);
    lemma_matches_closed(told_before(lines, n), end);
}

/// What is told of lists of failures stands in the list at which it is told.
proof fn lemma_told_from(lines: Seq<Seq<char>>, n: int, x: Seq<char>)
    requires
        told_before(lines, n).contains(x),
    ensures
        exists|k: int| 0 <= k < n && is_told(lines, k) && #[trigger] lines[k] == x,
    decreases n,
{
    if n > 0 {
        let before = told_before(lines, n - 1);
        if before.contains(x) {
            lemma_told_from(lines, n - 1, x);
        } else {
            let all = told_before(lines, n);
            let j = choose|j: int| 0 <= j < all.len() && all[j] == x;
            assert(j == before.len());
            assert(lines[n - 1] == x);
        }
    }
}

/// Whether a text is made of lines that `source` holds, in order and with nothing between them.
pub open spec fn is_run_of(source: Seq<Seq<char>>, s: Seq<char>) -> bool {
    exists|a: int, b: int|
        0 <= a < b <= source.len() && s == text::joined(
            #[trigger] source.subrange(a, b),
            "\n"@,
        )
}

proof fn lemma_paragraphs_are_runs(lines: Seq<Seq<char>>, k: int)
    requires
        0 <= k < paragraphs(lines).len(),
    ensures
        is_run_of(lines, paragraphs(lines)[k]),
    decreases lines.len(),
{
    let n = last_run(lines);
    lemma_last_run(lines);
    if lines.len() > 0 {
        let from = if n == 0 {
            lines.drop_last()
        } else {
            lines.take(lines.len() - n)
        };
        if n > 0 && k == paragraphs(from).len() {
            let a = lines.len() - n;
            let b = lines.len() as int;
            assert(lines.subrange(a, b) =~= lines.skip(a));
            assert(is_run_of(lines, paragraphs(lines)[k]));
        } else {
            lemma_paragraphs_are_runs(from, k);
            let s = paragraphs(from)[k];
            let (a, b) = choose|a: int, b: int|
                0 <= a < b <= from.len() && s == text::joined(
                    #[trigger] from.subrange(a, b),
                    "\n"@,
                );
            assert(lines.subrange(a, b) =~= from.subrange(a, b));
            assert(is_run_of(lines, s));
        }
    }
}

/// Every line of a failure stands after a heading `failures:` with no line that sums up a suite
/// between them, and is itself neither such a line, nor progress, nor part of a warning of
/// scarb about itself.
pub proof fn law_failures_stand_in_sections(output: Seq<char>, k: int)
    requires
        0 <= k < test_output::test_model(output).failures.len(),
    ensures
        ({
            let lines = text::lines_of(output);
            exists|ls: Seq<Seq<char>>|
                {
                    &&& test_output::test_model(output).failures[k] == #[trigger] text::joined(
                        ls,
                        "\n"@,
                    )
                    &&& ls.len() > 0
                    &&& forall|j: int|
                        0 <= j < ls.len() ==> exists|i: int|
                            0 <= i < lines.len() && is_told(lines, i) && #[trigger] lines[i]
                                == #[trigger] ls[j]
                }
        }),
{
    let lines = text::lines_of(output);
    let n = lines.len() as int;
    let told = told_before(lines, n);
    law_failures_are_paragraphs(output);
    lemma_paragraphs_are_runs(told, k);
    let s = paragraphs(told)[k];
    let (a, b) = choose|a: int, b: int|
        0 <= a < b <= told.len() && s == text::joined(#[trigger] told.subrange(a, b), "\n"@);
    let ls = told.subrange(a, b);
    assert forall|j: int| 0 <= j < ls.len() implies exists|i: int|
        0 <= i < lines.len() && is_told(lines, i) && #[trigger] lines[i] == #[trigger] ls[j] by {
        assert(told[a + j] == ls[j]);
        lemma_told_from(lines, n, ls[j]);
    }
    assert(s == text::joined(ls, "\n"@));
}

/// A line after which a suite was summed up, with no heading since, stands in no failure as one of
/// its lines: it is not told.
pub proof fn law_after_summary_nothing_is_told(lines: Seq<Seq<char>>, s: int, k: int)
    requires
        0 <= s < k < lines.len(),
        is_summary(lines[s]),
        !is_swallowed(lines, s),
        forall|j: int| s < j < k ==> #[trigger] lines[j] != "failures:"@,
    ensures
        !is_told(lines, k),
{
    reveal_strlit("failures:");
    reveal_strlit("test result:");
    if in_section(lines, k) {
        let h = choose|h: int|
            {
                &&& 0 <= h < k
                &&& #[trigger] lines[h] == "failures:"@
                &&& !is_swallowed(lines, h)
                &&& forall|j: int|
                    h < j < k && !is_swallowed(lines, j) ==> !is_summary(#[trigger] lines[j])
            };
        build_laws::lemma_prefix("test result:"@, lines[s], 0);
        if h == s {
            assert(lines[h][0] == 'f');
        } else if h < s {
            assert(!is_summary(lines[s]));
        }
    }
}

/// The items of a list, each with its number before it.
pub open spec fn items(failures: Seq<Seq<char>>, n: int) -> Seq<Seq<char>> {
    Seq::new(n as nat, |k: int| number::decimal((k + 1) as nat) + ". "@ + failures[k])
}

proof fn lemma_items(failures: Seq<Seq<char>>, n: int)
    requires
        0 <= n <= failures.len(),
    ensures
        test_output::numbered(failures, n) == text::each_ended(items(failures, n), "\n"@),
    decreases n,
{
    if n > 0 {
        lemma_items(failures, n - 1);
        let all = items(failures, n);
        assert(all.drop_last() =~= items(failures, n - 1));
        assert(all.last() == number::decimal(n as nat) + ". "@ + failures[n - 1]);
        assert(test_output::numbered(failures, n) =~= text::each_ended(all, "\n"@));
    } else {
        assert(items(failures, 0) =~= Seq::<Seq<char>>::empty());
        assert(test_output::numbered(failures, n) =~= text::each_ended(items(failures, n), "\n"@));
    }
}

/// The view of a run with failures: their number, a rule, the first ten with a number before
/// each, how many more there are, and the summaries.
pub proof fn law_failing_view(output: Seq<char>)
    requires
        test_output::test_model(output).failures.len() > 0,
    ensures
        ({
            let m = test_output::test_model(output);
            let n = m.failures.len();
            test_laws::view_of(output) == text::trimmed(
                "FAILURES ("@ + number::decimal(n) + "):\n"@
                    + "═══════════════════════════════════════\n"@ + text::each_ended(
                    items(
                        m.failures,
                        if n > 10 {
                            10
                        } else {
                            n as int
                        },
                    ),
                    "\n"@,
                ) + (if n > 10 {
                    "\n... +"@ + number::decimal((n - 10) as nat) + " more failures\n"@
                } else {
                    seq![]
                }) + "\n"@ + text::each_ended(m.summaries, "\n"@),
            )
        }),
{
    let m = test_output::test_model(output);
    let n = m.failures.len();
    let shown: int = if n > 10 {
        10
    } else {
        n as int
    };
    lemma_items(m.failures, shown);
    let whole = "FAILURES ("@ + number::decimal(n) + "):\n"@
        + "═══════════════════════════════════════\n"@ + text::each_ended(
        items(m.failures, shown),
        "\n"@,
    ) + (if n > 10 {
        "\n... +"@ + number::decimal((n - 10) as nat) + " more failures\n"@
    } else {
        seq![]
    }) + "\n"@ + text::each_ended(m.summaries, "\n"@);
    assert(test_output::failure_list(m.failures) + text::each_ended(m.summaries, "\n"@) =~= whole);
}

/// Whether line `k` may stand for an output in which nothing else was found.
pub open spec fn may_remain(lines: Seq<Seq<char>>, k: int) -> bool {
    let start = text::trimmed_start(lines[k]);
    &&& !is_swallowed(lines, k)
    &&& !build_laws::is_self_warning(lines[k])
    &&& !text::blank(lines[k])
    &&& !is_passed(lines[k])
    &&& !"Compiling"@.is_prefix_of(start)
    &&& !"Checking"@.is_prefix_of(start)
    &&& !"Finished"@.is_prefix_of(start)
    &&& !"Blocking"@.is_prefix_of(start)
}

/// The lines from `i` on that may stand for an output in which nothing else was found.
pub open spec fn remaining(lines: Seq<Seq<char>>, i: int) -> Seq<Seq<char>>
    decreases lines.len() - i,
{
    if i >= lines.len() {
        seq![]
    } else if may_remain(lines, i) {
        seq![lines[i]] + remaining(lines, i + 1)
    } else {
        remaining(lines, i + 1)
    }
}

proof fn lemma_remaining_over(lines: Seq<Seq<char>>, i: int, k: int)
    requires
        0 <= i < lines.len(),
        build_laws::is_self_warning(lines[i]),
        i <= k <= noise::noise_end(Stage::Test, lines, i + 1),
    ensures
        remaining(lines, i) == remaining(lines, k),
    decreases k,
{
    noise::lemma_noise_end(Stage::Test, lines, i + 1);
    if k > i {
        lemma_remaining_over(lines, i, k - 1);
        if k - 1 > i {
            lemma_swallowed_run(lines, i, k - 1);
        }
    }
}

proof fn lemma_kept_remaining(lines: Seq<Seq<char>>, i: int)
    requires
        0 <= i <= lines.len(),
        i < lines.len() ==> !is_swallowed(lines, i),
    ensures
        test_output::kept_lines(lines, i) == remaining(lines, i),
    decreases lines.len() - i,
{
    if i < lines.len() {
        lemma_kinds(lines[i]);
        if build_laws::is_self_warning(lines[i]) {
            let end = noise::noise_end(Stage::Test, lines, i + 1);
            noise::lemma_noise_end(Stage::Test, lines, i + 1);
            lemma_remaining_over(lines, i, end);
            lemma_swallowed_run(lines, i, end);
            lemma_kept_remaining(lines, end);
        } else {
            lemma_not_swallowed_next(lines, i);
            lemma_kept_remaining(lines, i + 1);
        }
    }
}

/// The view of an output without failures and summaries is the last five lines that may stand for
/// it, in order; all of them where there are no more.
pub proof fn law_remaining_view(output: Seq<char>)
    requires
        test_laws::is_tail(output),
    ensures
        ({
            let all = remaining(text::lines_of(output), 0);
            test_laws::view_of(output) == text::trimmed(
                text::each_ended(
                    if all.len() > 5 {
                        all.skip(all.len() - 5)
                    } else {
                        all
                    },
                    "\n"@,
                ),
            )
        }),
{
    lemma_kept_remaining(text::lines_of(output), 0);
}

/// Results are added up: the totals of two lists together are the sums of their totals, and those
/// of one result are its counts.
pub proof fn law_totals_add(
    a: Seq<Option<AggregatedTestResult>>,
    b: Seq<Option<AggregatedTestResult>>,
)
    ensures
        ({
            let (s, t, u) = (
                test_output::totals(a + b),
                test_output::totals(a),
                test_output::totals(b),
            );
            &&& s.passed == t.passed + u.passed
            &&& s.failed == t.failed + u.failed
            &&& s.ignored == t.ignored + u.ignored
            &&& s.filtered_out == t.filtered_out + u.filtered_out
            &&& s.suites == t.suites + u.suites
        }),
        forall|r: AggregatedTestResult|
            ({
                let t = #[trigger] test_output::totals(seq![Some(r)]);
                &&& t.passed == r.passed
                &&& t.failed == r.failed
                &&& t.ignored == r.ignored
                &&& t.filtered_out == r.filtered_out
                &&& t.suites == r.suites
            }),
    decreases b.len(),
{
    assert forall|r: AggregatedTestResult|
        ({
            let t = #[trigger] test_output::totals(seq![Some(r)]);
            &&& t.passed == r.passed
            &&& t.failed == r.failed
            &&& t.ignored == r.ignored
            &&& t.filtered_out == r.filtered_out
            &&& t.suites == r.suites
        }) by {
        let one = seq![Some(r)];
        assert(one.drop_last() =~= Seq::<Option<AggregatedTestResult>>::empty());
        assert(test_output::totals(one.drop_last()) == test_output::Totals::zero());
        assert(one.last() == Some(r));
    }
    if b.len() == 0 {
        assert(a + b =~= a);
    } else {
        law_totals_add(a, b.drop_last());
        assert((a + b).drop_last() =~= a + b.drop_last());
        assert((a + b).last() == b.last());
    }
}

/// A summary line stands for the counts that it shows in decimal, as one suite, just where its
/// status is `ok`.
pub proof fn law_suite_counts(
    whole: Option<Seq<char>>,
    status: Seq<char>,
    passed: usize,
    failed: usize,
    ignored: usize,
    filtered_out: usize,
)
    ensures
        test_output::suite_result(
            Some(
                seq![
                    whole,
                    Some(status),
                    Some(number::decimal(passed as nat)),
                    Some(number::decimal(failed as nat)),
                    Some(number::decimal(ignored as nat)),
                    Some(number::decimal(filtered_out as nat)),
                ],
            ),
        ) == (if status == "ok"@ {
            Some(AggregatedTestResult { passed, failed, ignored, filtered_out, suites: 1 })
        } else {
            None
        }),
{
    number::law_parse_undoes_decimal(passed);
    number::law_parse_undoes_decimal(failed);
    number::law_parse_undoes_decimal(ignored);
    number::law_parse_undoes_decimal(filtered_out);
    let g = seq![
        whole,
        Some(status),
        Some(number::decimal(passed as nat)),
        Some(number::decimal(failed as nat)),
        Some(number::decimal(ignored as nat)),
        Some(number::decimal(filtered_out as nat)),
    ];
    assert(pattern::group_text(g, 1) == Some(status));
    assert(pattern::group_number(g, 2) == Some(passed));
    assert(pattern::group_number(g, 3) == Some(failed));
    assert(pattern::group_number(g, 4) == Some(ignored));
    assert(pattern::group_number(g, 5) == Some(filtered_out));
}

/// The view of a run without failures whose summaries all stand for results is one line with the
/// sums of their counts. Where one stands for none, the view is the summaries, each with a tick.
pub proof fn law_passing_view(output: Seq<char>)
    requires
        test_output::test_model(output).failures.len() == 0,
        test_output::test_model(output).summaries.len() > 0,
    ensures
        ({
            let m = test_output::test_model(output);
            let results = Seq::new(
                m.summaries.len(),
                |i: int| test_output::line_result(m.summaries[i]),
            );
            let t = test_output::totals(results);
            test_laws::view_of(output) == (if forall|i: int|
                0 <= i < results.len() ==> (#[trigger] results[i]) is Some {
                "✓ scarb test: "@ + number::decimal(t.passed) + " passed"@ + (if t.ignored > 0 {
                    ", "@ + number::decimal(t.ignored) + " ignored"@
                } else {
                    seq![]
                }) + (if t.filtered_out > 0 {
                    ", "@ + number::decimal(t.filtered_out) + " filtered out"@
                } else {
                    seq![]
                }) + " ("@ + number::decimal(results.len()) + (if results.len() == 1 {
                    " suite)"@
                } else {
                    " suites)"@
                })
            } else {
                text::trimmed(
                    text::each_ended(
                        Seq::new(m.summaries.len(), |i: int| "✓ "@ + m.summaries[i]),
                        "\n"@,
                    ),
                )
            })
        }),
{
    let m = test_output::test_model(output);
    let results = Seq::new(m.summaries.len(), |i: int| test_output::line_result(m.summaries[i]));
    let t = test_output::totals(results);
    assert(results =~= test_output::summary_results(m));
    if test_output::all_results(results) {
        reveal_strlit(" suite");
        reveal_strlit(" suites");
        reveal_strlit(" suite)");
        reveal_strlit(" suites)");
        reveal_strlit(")");
        test_laws::law_suites_counted(output);
        assert(" suite"@ + ")"@ =~= " suite)"@);
        assert(" suites"@ + ")"@ =~= " suites)"@);
        assert(test_output::compact_line(t) =~= "✓ scarb test: "@ + number::decimal(t.passed)
            + " passed"@ + (if t.ignored > 0 {
            ", "@ + number::decimal(t.ignored) + " ignored"@
        } else {
            seq![]
        }) + (if t.filtered_out > 0 {
            ", "@ + number::decimal(t.filtered_out) + " filtered out"@
        } else {
            seq![]
        }) + " ("@ + number::decimal(results.len()) + (if results.len() == 1 {
            " suite)"@
        } else {
            " suites)"@
        }));
    } else {
        assert(m.summaries.map_values(|s: Seq<char>| "✓ "@ + s) =~= Seq::new(
            m.summaries.len(),
            |i: int| "✓ "@ + m.summaries[i],
        ));
    }
}

/// A run without failures can be shown just where a summary stands for no result, or each of the
/// sums of the results' counts fits into a `usize`. One with failures can always be shown.
pub proof fn law_when_shown(output: Seq<char>)
    ensures
        ({
            let m = test_output::test_model(output);
            let results = Seq::new(
                m.summaries.len(),
                |i: int| test_output::line_result(m.summaries[i]),
            );
            let t = test_output::totals(results);
            test_output::countable(m, test_output::summary_results(m)) <==> {
                ||| m.failures.len() > 0
                ||| exists|i: int| 0 <= i < results.len() && (#[trigger] results[i]) is None
                ||| {
                    &&& t.passed <= usize::MAX
                    &&& t.failed <= usize::MAX
                    &&& t.ignored <= usize::MAX
                    &&& t.filtered_out <= usize::MAX
                    &&& t.suites <= usize::MAX
                }
            }
        }),
{
    let m = test_output::test_model(output);
    assert(test_output::summary_results(m) =~= Seq::new(
        m.summaries.len(),
        |i: int| test_output::line_result(m.summaries[i]),
    ));
}

} // verus!
