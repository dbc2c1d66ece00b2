//! What the view of a test run keeps of the run's output.
use crate::containment;
use crate::number;
use crate::scarb_cmd::noise;
use crate::scarb_cmd::noise::Stage;
use crate::scarb_cmd::test_output;
use crate::scarb_cmd::test_output::{AggregatedTestResult, TestLine, TestModel, SHOWN_FAILURES};
use crate::text;
use vstd::prelude::*;

verus! {

/// The view of an output.
pub open spec fn view_of(output: Seq<char>) -> Seq<char> {
    let m = test_output::test_model(output);
    test_output::test_report(output, m, test_output::summary_results(m))
}

/// Whether the view of an output is the one line of totals: no test failed, there are summary
/// lines, and each of them stands for a result.
pub open spec fn is_compact(output: Seq<char>) -> bool {
    let m = test_output::test_model(output);
    &&& m.failures.len() == 0
    &&& m.summaries.len() > 0
    &&& test_output::all_results(test_output::summary_results(m))
}

proof fn lemma_suites(results: Seq<Option<AggregatedTestResult>>)
    requires
        test_output::all_results(results),
        forall|i: int| 0 <= i < results.len() ==> (#[trigger] results[i])->0.suites == 1,
    ensures
        test_output::totals(results).suites == results.len(),
    decreases results.len(),
{
    if results.len() > 0 {
        let rest = results.drop_last();
        assert forall|i: int| 0 <= i < rest.len() implies (#[trigger] rest[i]) is Some
            && rest[i]->0.suites == 1 by {
            assert(rest[i] == results[i]);
        }
        lemma_suites(rest);
        assert(results.last() == results[results.len() - 1]);
    }
}

/// The one line of totals counts as many suites as there are summary lines.
pub proof fn law_suites_counted(output: Seq<char>)
    requires
        is_compact(output),
    ensures
        ({
            let m = test_output::test_model(output);
            let t = test_output::totals(test_output::summary_results(m));
            &&& t.suites == m.summaries.len()
            &&& view_of(output) == test_output::compact_line(t)
        }),
{
    let results = test_output::summary_results(test_output::test_model(output));
    assert forall|i: int| 0 <= i < results.len() implies (#[trigger] results[i])->0.suites == 1 by {
        assert(results[i] is Some);
    }
    lemma_suites(results);
}

proof fn lemma_numbered_holds(failures: Seq<Seq<char>>, n: int, k: int)
    requires
        0 <= k < n <= failures.len(),
    ensures
        text::has_text(test_output::numbered(failures, n), failures[k]),
    decreases n,
{
    let before = test_output::numbered(failures, n - 1);
    let mark = before + number::decimal(n as nat) + ". "@;
    if k == n - 1 {
        containment::lemma_middle(mark, failures[k], "\n"@);
    } else {
        lemma_numbered_holds(failures, n - 1, k);
        containment::lemma_in_first(before, number::decimal(n as nat), failures[k]);
        containment::lemma_in_first(before + number::decimal(n as nat), ". "@, failures[k]);
        containment::lemma_in_first(mark, failures[n - 1], failures[k]);
        containment::lemma_in_first(mark + failures[n - 1], "\n"@, failures[k]);
    }
}

/// The heading of a list of failures.
spec fn list_head(failures: Seq<Seq<char>>) -> Seq<char> {
    "FAILURES ("@ + number::decimal(failures.len()) + "):\n"@
        + "═══════════════════════════════════════\n"@
}

/// What follows the failures of a list.
spec fn list_end(failures: Seq<Seq<char>>) -> Seq<char> {
    if failures.len() > SHOWN_FAILURES {
        "\n... +"@ + number::decimal((failures.len() - SHOWN_FAILURES) as nat)
            + " more failures\n"@ + "\n"@
    } else {
        "\n"@
    }
}

proof fn lemma_list_whole(failures: Seq<Seq<char>>)
    ensures
        ({
            let n: int = if failures.len() > SHOWN_FAILURES {
                SHOWN_FAILURES as int
            } else {
                failures.len() as int
            };
            test_output::failure_list(failures) == list_head(failures) + test_output::numbered(
                failures,
                n,
            ) + list_end(failures)
        }),
{
    if failures.len() > SHOWN_FAILURES {
        assert(test_output::failure_list(failures) =~= list_head(failures) + test_output::numbered(
            failures,
            SHOWN_FAILURES as int,
        ) + list_end(failures));
    }
}

/// Each of the first failures stands in the view. Only white space at its ends may be missing.
pub proof fn law_failures_shown(output: Seq<char>, k: int)
    requires
        0 <= k < test_output::test_model(output).failures.len(),
        k < SHOWN_FAILURES,
    ensures
        text::has_text(
            view_of(output),
            text::trimmed(test_output::test_model(output).failures[k]),
        ),
{
    let m = test_output::test_model(output);
    let n: int = if m.failures.len() > SHOWN_FAILURES {
        SHOWN_FAILURES as int
    } else {
        m.failures.len() as int
    };
    let p = m.failures[k];
    let list = test_output::numbered(m.failures, n);
    let ends = text::each_ended(m.summaries, "\n"@);
    lemma_numbered_holds(m.failures, n, k);
    lemma_list_whole(m.failures);
    containment::lemma_in_second(list_head(m.failures), list, p);
    containment::lemma_in_first(list_head(m.failures) + list, list_end(m.failures), p);
    containment::lemma_in_first(test_output::failure_list(m.failures), ends, p);
    containment::lemma_trimming_keeps(test_output::failure_list(m.failures) + ends, p);
}

/// A text that says how many failures are not shown.
pub open spec fn more_failures(n: nat) -> Seq<char> {
    "... +"@ + number::decimal(n) + " more failures"@
}

/// Where there are more failures than are shown, the view says how many are missing.
pub proof fn law_hidden_failures_counted(output: Seq<char>)
    requires
        test_output::test_model(output).failures.len() > SHOWN_FAILURES,
    ensures
        text::has_text(
            view_of(output),
            more_failures(
                (test_output::test_model(output).failures.len() - SHOWN_FAILURES) as nat,
            ),
        ),
{
    let m = test_output::test_model(output);
    let more = more_failures((m.failures.len() - SHOWN_FAILURES) as nat);
    let list = test_output::numbered(m.failures, SHOWN_FAILURES as int);
    let ends = text::each_ended(m.summaries, "\n"@);
    reveal_strlit("\n... +");
    reveal_strlit("... +");
    reveal_strlit(" more failures\n");
    reveal_strlit(" more failures");
    reveal_strlit("\n");
    assert("\n... +"@ =~= "\n"@ + "... +"@);
    assert(" more failures\n"@ =~= " more failures"@ + "\n"@);
    assert(list_end(m.failures) =~= "\n"@ + more + ("\n"@ + "\n"@));
    containment::lemma_middle("\n"@, more, "\n"@ + "\n"@);
    lemma_list_whole(m.failures);
    containment::lemma_in_second(list_head(m.failures) + list, list_end(m.failures), more);
    containment::lemma_in_first(test_output::failure_list(m.failures), ends, more);
    containment::lemma_trimming_keeps(test_output::failure_list(m.failures) + ends, more);
    assert(more[0] == '.');
    assert(more.last() == 's');
    containment::lemma_trimmed_already(more);
}

/// Every summary line stands in a view that is not the one line of totals. Only white space at
/// its end may be missing.
pub proof fn law_summaries_kept(output: Seq<char>, k: int)
    requires
        0 <= k < test_output::test_model(output).summaries.len(),
        !is_compact(output),
    ensures
        text::has_text(
            view_of(output),
            text::trimmed(test_output::test_model(output).summaries[k]),
        ),
{
    let m = test_output::test_model(output);
    let p = m.summaries[k];
    if m.failures.len() > 0 {
        let list = test_output::failure_list(m.failures);
        let ends = text::each_ended(m.summaries, "\n"@);
        containment::lemma_each_ended_holds(m.summaries, "\n"@, k);
        containment::lemma_in_second(list, ends, p);
        containment::lemma_trimming_keeps(list + ends, p);
    } else {
        let marked = m.summaries.map_values(|s: Seq<char>| "✓ "@ + s);
        let ends = text::each_ended(marked, "\n"@);
        assert(marked[k] == "✓ "@ + p);
        containment::lemma_each_ended_holds(marked, "\n"@, k);
        containment::lemma_itself(p);
        containment::lemma_in_second("✓ "@, p, p);
        containment::lemma_through(ends, marked[k], p);
        containment::lemma_trimming_keeps(ends, p);
    }
}

/// Whether `line` sums up a suite.
pub open spec fn is_summary(line: Seq<char>) -> bool {
    test_output::line_kind(line) is Other && "test result:"@.is_prefix_of(line)
}

/// Whether `line` may stand in a failure: it is one of `lines`, and neither tells of compiling,
/// fetching, scarb itself or a test that passed, nor sums up a suite.
pub open spec fn may_show(lines: Seq<Seq<char>>, line: Seq<char>) -> bool {
    &&& lines.contains(line)
    &&& test_output::line_kind(line) is Other
    &&& !is_summary(line)
}

/// Whether a failure is made of lines that may stand in one.
pub open spec fn made_of_shown(lines: Seq<Seq<char>>, failure: Seq<char>) -> bool {
    exists|ls: Seq<Seq<char>>|
        {
            &&& failure == #[trigger] text::joined(ls, "\n"@)
            &&& ls.len() > 0
            &&& forall|j: int| 0 <= j < ls.len() ==> may_show(lines, #[trigger] ls[j])
        }
}

spec fn all_shown(lines: Seq<Seq<char>>, m: TestModel) -> bool {
    &&& forall|k: int| 0 <= k < m.failures.len() ==> made_of_shown(lines, #[trigger] m.failures[k])
    &&& forall|k: int|
        0 <= k < m.summaries.len() ==> is_summary(#[trigger] m.summaries[k]) && lines.contains(
            m.summaries[k],
        )
    &&& forall|j: int| 0 <= j < m.current.len() ==> may_show(lines, #[trigger] m.current[j])
}

proof fn lemma_closed_shown(lines: Seq<Seq<char>>, m: TestModel)
    requires
        all_shown(lines, m),
    ensures
        all_shown(lines, m.closed()),
{
    if m.current.len() > 0 {
        assert(made_of_shown(lines, text::joined(m.current, "\n"@)));
    }
}

proof fn lemma_scan_shown(lines: Seq<Seq<char>>, i: int, m: TestModel)
    requires
        0 <= i <= lines.len(),
        all_shown(lines, m),
    ensures
        all_shown(lines, test_output::scanned(lines, i, m).closed()),
    decreases lines.len() - i,
{
    lemma_closed_shown(lines, m);
    if i < lines.len() {
        let line = lines[i];
        assert(lines.contains(line));
        match test_output::line_kind(line) {
            TestLine::Dropped => {
                lemma_scan_shown(lines, i + 1, m);
            },
            TestLine::Noise => {
                noise::lemma_noise_end(Stage::Test, lines, i + 1);
                lemma_scan_shown(lines, noise::noise_end(Stage::Test, lines, i + 1), m);
            },
            TestLine::Failures => {
                lemma_scan_shown(lines, i + 1, TestModel { in_failures: true, ..m });
            },
            TestLine::Other => {
                lemma_scan_shown(lines, i + 1, m.taken(line));
            },
        }
    }
}

/// The failures hold lines of the output and nothing else, and no line that tells of compiling,
/// fetching, scarb itself or a test that passed.
pub proof fn law_failures_hold_no_noise(output: Seq<char>, k: int)
    requires
        0 <= k < test_output::test_model(output).failures.len(),
    ensures
        made_of_shown(text::lines_of(output), test_output::test_model(output).failures[k]),
{
    lemma_scan_shown(text::lines_of(output), 0, TestModel::empty());
}

/// The lines from `i` on that sum up a suite, without those that a warning of scarb about itself
/// takes in.
pub open spec fn summaries_from(lines: Seq<Seq<char>>, i: int) -> Seq<Seq<char>>
    decreases lines.len() - i,
    via summaries_from_decreases
{
    if i >= lines.len() {
        seq![]
    } else if test_output::line_kind(lines[i]) is Noise {
        summaries_from(lines, noise::noise_end(Stage::Test, lines, i + 1))
    } else if is_summary(lines[i]) {
        seq![lines[i]] + summaries_from(lines, i + 1)
    } else {
        summaries_from(lines, i + 1)
    }
}

#[via_fn]
proof fn summaries_from_decreases(lines: Seq<Seq<char>>, i: int) {
    if i < lines.len() {
        noise::lemma_noise_end(Stage::Test, lines, i + 1);
    }
}

proof fn lemma_scan_summaries(lines: Seq<Seq<char>>, i: int, m: TestModel)
    requires
        0 <= i <= lines.len(),
    ensures
        test_output::scanned(lines, i, m).closed().summaries == m.summaries + summaries_from(
            lines,
            i,
        ),
    decreases lines.len() - i,
{
    if i >= lines.len() {
        assert(m.summaries + summaries_from(lines, i) =~= m.summaries);
    } else {
        let line = lines[i];
        let rest = summaries_from(lines, i + 1);
        assert(m.summaries + (seq![line] + rest) =~= m.summaries.push(line) + rest);
        match test_output::line_kind(line) {
            TestLine::Dropped => {
                lemma_scan_summaries(lines, i + 1, m);
            },
            TestLine::Noise => {
                noise::lemma_noise_end(Stage::Test, lines, i + 1);
                lemma_scan_summaries(lines, noise::noise_end(Stage::Test, lines, i + 1), m);
            },
            TestLine::Failures => {
                lemma_scan_summaries(lines, i + 1, TestModel { in_failures: true, ..m });
            },
            TestLine::Other => {
                lemma_scan_summaries(lines, i + 1, m.taken(line));
            },
        }
    }
}

/// Every line that sums up a suite is kept, in order, unless a warning of scarb about itself
/// takes it in.
pub proof fn law_no_summary_lost(output: Seq<char>)
    ensures
        test_output::test_model(output).summaries == summaries_from(text::lines_of(output), 0),
{
    lemma_scan_summaries(text::lines_of(output), 0, TestModel::empty());
    assert(Seq::<Seq<char>>::empty() + summaries_from(text::lines_of(output), 0)
        =~= summaries_from(text::lines_of(output), 0));
}

/// What has been read where line `k` is reached, once `m` has been read before line `i`; nothing
/// where line `k` is passed over, as part of a warning of scarb about itself.
pub open spec fn reached(lines: Seq<Seq<char>>, i: int, m: TestModel, k: int) -> Option<TestModel>
    decreases lines.len() - i,
    via reached_decreases
{
    if i >= lines.len() || i > k {
        None
    } else if i == k {
        Some(m)
    } else {
        match test_output::line_kind(lines[i]) {
            TestLine::Dropped => reached(lines, i + 1, m, k),
            TestLine::Noise => reached(lines, noise::noise_end(Stage::Test, lines, i + 1), m, k),
            TestLine::Failures => reached(lines, i + 1, TestModel { in_failures: true, ..m }, k),
            TestLine::Other => reached(lines, i + 1, m.taken(lines[i]), k),
        }
    }
}

#[via_fn]
proof fn reached_decreases(lines: Seq<Seq<char>>, i: int, m: TestModel, k: int) {
    if i < lines.len() {
        noise::lemma_noise_end(Stage::Test, lines, i + 1);
    }
}

/// Whether a line tells of a failure where `m` has been read before it: it stands in a list of
/// failures, is not blank, and is neither progress nor a summary.
pub open spec fn tells_failure(m: TestModel, line: Seq<char>) -> bool {
    &&& m.in_failures
    &&& test_output::line_kind(line) is Other
    &&& !is_summary(line)
    &&& !text::blank(line)
}

/// Whether a failure holds `line`.
pub open spec fn in_failures(m: TestModel, line: Seq<char>) -> bool {
    exists|k: int| 0 <= k < m.failures.len() && text::has_text(#[trigger] m.failures[k], line)
}

proof fn lemma_closed_keeps(m: TestModel, line: Seq<char>)
    requires
        m.current.contains(line) || in_failures(m, line),
    ensures
        in_failures(m.closed(), line),
{
    if m.current.len() > 0 {
        let c = m.closed();
        if in_failures(m, line) {
            let k = choose|k: int|
                0 <= k < m.failures.len() && text::has_text(#[trigger] m.failures[k], line);
            assert(c.failures[k] == m.failures[k]);
        } else {
            let j = choose|j: int| 0 <= j < m.current.len() && m.current[j] == line;
            containment::lemma_joined_holds(m.current, "\n"@, j);
            assert(c.failures[m.failures.len() as int] == text::joined(m.current, "\n"@));
        }
    }
}

proof fn lemma_taken_keeps(m: TestModel, next: Seq<char>, line: Seq<char>)
    requires
        m.current.contains(line) || in_failures(m, line),
    ensures
        ({
            let r = m.taken(next);
            r.current.contains(line) || in_failures(r, line)
        }),
{
    let r = m.taken(next);
    lemma_closed_keeps(m, line);
    if r.failures == m.failures {
        if in_failures(m, line) {
            let k = choose|k: int|
                0 <= k < m.failures.len() && text::has_text(#[trigger] m.failures[k], line);
            assert(text::has_text(r.failures[k], line));
        } else {
            let j = choose|j: int| 0 <= j < m.current.len() && m.current[j] == line;
            assert(r.current.len() > 0 ==> r.current[j] == line);
        }
    }
}

proof fn lemma_scan_keeps(lines: Seq<Seq<char>>, i: int, m: TestModel, line: Seq<char>)
    requires
        0 <= i <= lines.len(),
        m.current.contains(line) || in_failures(m, line),
    ensures
        in_failures(test_output::scanned(lines, i, m).closed(), line),
    decreases lines.len() - i,
{
    if i >= lines.len() {
        lemma_closed_keeps(m, line);
    } else {
        match test_output::line_kind(lines[i]) {
            TestLine::Dropped => {
                lemma_scan_keeps(lines, i + 1, m, line);
            },
            TestLine::Noise => {
                noise::lemma_noise_end(Stage::Test, lines, i + 1);
                lemma_scan_keeps(lines, noise::noise_end(Stage::Test, lines, i + 1), m, line);
            },
            TestLine::Failures => {
                let listing = TestModel { in_failures: true, ..m };
                if in_failures(m, line) {
                    let k = choose|k: int|
                        0 <= k < m.failures.len() && text::has_text(#[trigger] m.failures[k], line);
                    assert(text::has_text(listing.failures[k], line));
                }
                lemma_scan_keeps(lines, i + 1, listing, line);
            },
            TestLine::Other => {
                lemma_taken_keeps(m, lines[i], line);
                lemma_scan_keeps(lines, i + 1, m.taken(lines[i]), line);
            },
        }
    }
}

proof fn lemma_reached_kept(lines: Seq<Seq<char>>, i: int, m: TestModel, k: int)
    requires
        0 <= i <= lines.len(),
        reached(lines, i, m, k) is Some,
        tells_failure(reached(lines, i, m, k)->0, lines[k]),
    ensures
        in_failures(test_output::scanned(lines, i, m).closed(), lines[k]),
    decreases lines.len() - i,
{
    if i == k {
        let r = m.taken(lines[k]);
        assert(r.current[m.current.len() as int] == lines[k]);
        lemma_scan_keeps(lines, i + 1, r, lines[k]);
    } else {
        match test_output::line_kind(lines[i]) {
            TestLine::Dropped => {
                lemma_reached_kept(lines, i + 1, m, k);
            },
            TestLine::Noise => {
                noise::lemma_noise_end(Stage::Test, lines, i + 1);
                lemma_reached_kept(lines, noise::noise_end(Stage::Test, lines, i + 1), m, k);
            },
            TestLine::Failures => {
                lemma_reached_kept(lines, i + 1, TestModel { in_failures: true, ..m }, k);
            },
            TestLine::Other => {
                lemma_reached_kept(lines, i + 1, m.taken(lines[i]), k);
            },
        }
    }
}

/// No line that tells of a failure is lost: a failure holds it.
pub proof fn law_no_failure_lost(output: Seq<char>, k: int)
    requires
        ({
            let lines = text::lines_of(output);
            let m = reached(lines, 0, TestModel::empty(), k);
            m is Some && tells_failure(m->0, lines[k])
        }),
    ensures
        in_failures(test_output::test_model(output), text::lines_of(output)[k]),
{
    lemma_reached_kept(text::lines_of(output), 0, TestModel::empty(), k);
}

/// Whether the view of an output is its last lines: it has neither failures nor summary lines.
pub open spec fn is_tail(output: Seq<char>) -> bool {
    let m = test_output::test_model(output);
    m.failures.len() == 0 && m.summaries.len() == 0
}

/// Whether `line` may stand for an output: it is one of `lines`, is not blank, and tells neither
/// of compiling, waiting or scarb itself nor of a test that passed.
pub open spec fn may_stand(lines: Seq<Seq<char>>, line: Seq<char>) -> bool {
    &&& lines.contains(line)
    &&& test_output::meaningful(line)
    &&& !noise::noise_warn(line)
}

proof fn lemma_kept_may_stand(lines: Seq<Seq<char>>, i: int)
    requires
        0 <= i <= lines.len(),
    ensures
        forall|j: int|
            0 <= j < test_output::kept_lines(lines, i).len() ==> may_stand(
                lines,
                #[trigger] test_output::kept_lines(lines, i)[j],
            ),
    decreases lines.len() - i,
{
    let all = test_output::kept_lines(lines, i);
    if i < lines.len() {
        let line = lines[i];
        assert(lines.contains(line));
        let next = if noise::noise_warn(line) {
            noise::noise_end(Stage::Test, lines, i + 1)
        } else {
            i + 1
        };
        noise::lemma_noise_end(Stage::Test, lines, i + 1);
        lemma_kept_may_stand(lines, next);
        let rest = test_output::kept_lines(lines, next);
        assert(all == rest || (all == seq![line] + rest && may_stand(lines, line)));
        assert forall|j: int| 0 <= j < all.len() implies may_stand(lines, #[trigger] all[j]) by {
            if all != rest && j > 0 {
                assert(all[j] == rest[j - 1]);
            }
        }
    } else {
        assert(all.len() == 0);
    }
}

/// Whether a line tells of compiling or waiting shows once it is trimmed.
proof fn lemma_words_trimmed(a: Seq<char>, b: Seq<char>)
    requires
        text::trimmed(a) == text::trimmed(b),
    ensures
        test_output::compilation(a) == test_output::compilation(b),
        test_output::waiting(a) == test_output::waiting(b),
{
    reveal_strlit("Compiling");
    reveal_strlit("Checking");
    reveal_strlit("Finished");
    reveal_strlit("Blocking");
    containment::lemma_word_first(a, "Compiling"@);
    containment::lemma_word_first(b, "Compiling"@);
    containment::lemma_word_first(a, "Checking"@);
    containment::lemma_word_first(b, "Checking"@);
    containment::lemma_word_first(a, "Finished"@);
    containment::lemma_word_first(b, "Finished"@);
    containment::lemma_word_first(a, "Blocking"@);
    containment::lemma_word_first(b, "Blocking"@);
}

proof fn lemma_words_not_blank(line: Seq<char>)
    requires
        text::blank(line),
    ensures
        !test_output::compilation(line),
        !test_output::waiting(line),
{
    reveal_strlit("Compiling");
    reveal_strlit("Checking");
    reveal_strlit("Finished");
    reveal_strlit("Blocking");
    text::lemma_trimmed_start_at(line, line.len() as int);
}

proof fn lemma_noise_not_blank(line: Seq<char>)
    requires
        test_output::test_passed(line) || noise::noise_warn(line),
    ensures
        !text::blank(line),
{
    reveal_strlit("test ");
    reveal_strlit("warn: `scarb cairo-test` is deprecated");
    reveal_strlit("warn: `cairo_test` plugin not found");
    reveal_strlit("warn: artefacts produced by this build may be hard to utilize");
    assert(line[0] == 't' || line[0] == 'w') by {
        if "test "@.is_prefix_of(line) {
            assert(line.subrange(0, 5)[0] == 't');
        } else if "warn: `scarb cairo-test` is deprecated"@.is_prefix_of(line) {
            assert("warn: `scarb cairo-test` is deprecated"@[0] == line[0]);
        } else if "warn: `cairo_test` plugin not found"@.is_prefix_of(line) {
            assert("warn: `cairo_test` plugin not found"@[0] == line[0]);
        } else {
            assert("warn: artefacts produced by this build may be hard to utilize"@[0] == line[0]);
        }
    }
}

/// A view of last lines is made of lines of the output, none of which tells of compiling,
/// waiting or scarb itself, or of a test that passed. They are the lines of the view, in order,
/// but for white space at their ends.
pub proof fn law_tail_holds_no_noise(output: Seq<char>)
    requires
        is_tail(output),
    ensures
        ({
            let lines = text::lines_of(output);
            let tail = test_output::tail_lines(lines);
            &&& view_of(output) == text::trimmed(text::each_ended(tail, "\n"@))
            &&& forall|j: int| 0 <= j < tail.len() ==> may_stand(lines, #[trigger] tail[j])
            &&& containment::written_lines(text::lines_of(view_of(output))) == tail.map_values(
                |line: Seq<char>| text::trimmed(line),
            )
        }),
{
    let lines = text::lines_of(output);
    let kept = test_output::kept_lines(lines, 0);
    let tail = test_output::tail_lines(lines);
    lemma_kept_may_stand(lines, 0);
    assert forall|j: int| 0 <= j < tail.len() implies may_stand(lines, #[trigger] tail[j]) by {
        assert(tail[j] == kept[j + kept.len() - tail.len()]);
    }
    assert forall|j: int, k: int|
        0 <= j < tail.len() && 0 <= k < tail[j].len() implies #[trigger] tail[j][k] != '\n' by {
        assert(may_stand(lines, tail[j]));
        let i = choose|i: int| 0 <= i < lines.len() && lines[i] == tail[j];
        containment::lemma_lines_hold_no_feed(output, i, k);
    }
    assert forall|j: int| 0 <= j < tail.len() implies !text::blank(#[trigger] tail[j]) by {
        assert(may_stand(lines, tail[j]));
    }
    containment::lemma_trimming_keeps_lines(text::each_ended(tail, "\n"@));
    containment::lemma_each_ended_lines(tail);
    containment::lemma_written_all(tail);
}

/// No line of a view of last lines tells of compiling or waiting.
pub proof fn law_tail_shows_no_compilation(output: Seq<char>, k: int)
    requires
        is_tail(output),
        0 <= k < text::lines_of(view_of(output)).len(),
    ensures
        !test_output::compilation(text::lines_of(view_of(output))[k]),
        !test_output::waiting(text::lines_of(view_of(output))[k]),
{
    let lines = text::lines_of(output);
    let tail = test_output::tail_lines(lines);
    let shown = text::lines_of(view_of(output));
    let trimmed = tail.map_values(|line: Seq<char>| text::trimmed(line));
    law_tail_holds_no_noise(output);
    if text::blank(shown[k]) {
        lemma_words_not_blank(shown[k]);
    } else {
        containment::lemma_is_written(shown, k);
        let j = choose|j: int| 0 <= j < trimmed.len() && trimmed[j] == text::trimmed(shown[k]);
        assert(may_stand(lines, tail[j]));
        lemma_words_trimmed(shown[k], tail[j]);
    }
}

/// No line that tells of a test that passed stands in a view of last lines as it stood in the
/// output, nor does one that begins a warning of scarb about itself: a line of the view that
/// looks like one was indented, or followed by white space.
pub proof fn law_tail_noise_was_trimmed(output: Seq<char>, k: int)
    requires
        is_tail(output),
        0 <= k < text::lines_of(view_of(output)).len(),
        ({
            let line = text::lines_of(view_of(output))[k];
            test_output::test_passed(line) || noise::noise_warn(line)
        }),
    ensures
        ({
            let line = text::lines_of(view_of(output))[k];
            exists|i: int|
                {
                    &&& 0 <= i < text::lines_of(output).len()
                    &&& #[trigger] text::lines_of(output)[i] != line
                    &&& text::trimmed(text::lines_of(output)[i]) == text::trimmed(line)
                    &&& may_stand(text::lines_of(output), text::lines_of(output)[i])
                }
        }),
{
    let lines = text::lines_of(output);
    let tail = test_output::tail_lines(lines);
    let shown = text::lines_of(view_of(output));
    let line = shown[k];
    let trimmed = tail.map_values(|line: Seq<char>| text::trimmed(line));
    law_tail_holds_no_noise(output);
    lemma_noise_not_blank(line);
    containment::lemma_is_written(shown, k);
    let j = choose|j: int| 0 <= j < trimmed.len() && trimmed[j] == text::trimmed(line);
    assert(may_stand(lines, tail[j]));
    let i = choose|i: int| 0 <= i < lines.len() && lines[i] == tail[j];
    assert(lines[i] != line);
}

/// The view neither begins nor ends with white space.
pub proof fn law_view_trimmed(output: Seq<char>)
    ensures
        text::trimmed(view_of(output)) == view_of(output),
{
    let m = test_output::test_model(output);
    let view = view_of(output);
    if is_compact(output) {
        reveal_strlit("✓ scarb test: ");
        reveal_strlit(")");
        assert(view[0] == '✓');
        assert(view.last() == ')');
        containment::lemma_trimmed_already(view);
    } else if m.failures.len() > 0 {
        containment::lemma_trimmed_twice(
            test_output::failure_list(m.failures) + text::each_ended(m.summaries, "\n"@),
        );
    } else if m.summaries.len() > 0 {
        containment::lemma_trimmed_twice(
            text::each_ended(m.summaries.map_values(|s: Seq<char>| "✓ "@ + s), "\n"@),
        );
    } else {
        containment::lemma_trimmed_twice(
            text::each_ended(test_output::tail_lines(text::lines_of(output)), "\n"@),
        );
    }
}

} // verus!
