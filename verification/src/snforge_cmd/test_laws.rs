//! What the view of a test run keeps of the run's output.
use crate::containment;
use crate::snforge_cmd::gas;
use crate::snforge_cmd::summary;
use crate::snforge_cmd::test_output;
use crate::snforge_cmd::test_output::{RunLine, RunModel};
use crate::text;
use vstd::prelude::*;

verus! {

/// The view of an output.
pub open spec fn view_of(output: Seq<char>) -> Seq<char> {
    let m = test_output::run_model(output);
    test_output::run_report(m, test_output::run_summary(m))
}

/// Whether a line is read by its kind where `m` has been read before it: it tells of no
/// compiling, belongs to no compiler warning and to no table.
pub open spec fn is_plain(m: RunModel, line: Seq<char>) -> bool {
    &&& !test_output::compilation_noise(line)
    &&& !test_output::warning_start(line)
    &&& m.in_warning ==> !text::blank(line) && !test_output::warning_detail(line)
    &&& test_output::breaks_table(line) || (m.table.len() == 0 && !gas::table_start(line))
}

/// Whether a line tells of a failure where `m` has been read before it: a `[FAIL]` line, the
/// heading of what a failed test left, or a line of that.
pub open spec fn tells_failure(m: RunModel, line: Seq<char>) -> bool {
    &&& is_plain(m, line)
    &&& match test_output::line_kind(line) {
        RunLine::Fail => true,
        RunLine::FailureData => true,
        RunLine::Other => m.data.len() > 0 && !text::blank(line),
        _ => false,
    }
}

/// Whether a line is the summary of a package where `m` has been read before it.
pub open spec fn sums_up_package(m: RunModel, line: Seq<char>) -> bool {
    &&& is_plain(m, line)
    &&& test_output::line_kind(line) is Other
    &&& m.data.len() == 0
    &&& test_output::package_summary_line(line)
    &&& !test_output::run_summary_line(line)
}

/// Whether a line is the summary of the whole run where `m` has been read before it.
pub open spec fn sums_up_run(m: RunModel, line: Seq<char>) -> bool {
    &&& is_plain(m, line)
    &&& test_output::line_kind(line) is Other
    &&& m.data.len() == 0
    &&& test_output::run_summary_line(line)
}

/// A line that cannot belong to a table is no border of one.
proof fn lemma_no_border(line: Seq<char>)
    requires
        test_output::breaks_table(line),
    ensures
        !gas::table_start(line),
        !gas::table_end(line),
{
    reveal_strlit("[FAIL]");
    reveal_strlit("Failure data:");
    reveal_strlit("Tests summary:");
    reveal_strlit("Tests:");
    let t = text::trimmed(line);
    assert(t[0] == '[' || t[0] == 'F' || t[0] == 'T') by {
        if "[FAIL]"@.is_prefix_of(t) {
            assert("[FAIL]"@[0] == t.subrange(0, 6)[0]);
        } else if "Tests summary:"@.is_prefix_of(t) {
            assert("Tests summary:"@[0] == t.subrange(0, 14)[0]);
        } else if "Tests:"@.is_prefix_of(t) {
            assert("Tests:"@[0] == t.subrange(0, 6)[0]);
        }
    }
}

/// What has been read before line `i`.
pub open spec fn before(lines: Seq<Seq<char>>, i: int) -> RunModel {
    test_output::scanned(lines.take(i))
}

proof fn lemma_next(lines: Seq<Seq<char>>, i: int)
    requires
        0 <= i < lines.len(),
    ensures
        before(lines, i + 1) == before(lines, i).with_line(lines[i]),
{
    assert(lines.take(i + 1).drop_last() == lines.take(i));
    assert(lines.take(i + 1).last() == lines[i]);
}

proof fn lemma_all_read(lines: Seq<Seq<char>>)
    ensures
        before(lines, lines.len() as int) == test_output::scanned(lines),
{
    assert(lines.take(lines.len() as int) == lines);
}

/// Whether a failure holds `line`.
spec fn in_failures(m: RunModel, line: Seq<char>) -> bool {
    exists|k: int| 0 <= k < m.failures.len() && text::has_text(#[trigger] m.failures[k], line)
}

/// Whether `line` stands in a failure, or is to stand in the next one.
spec fn kept(m: RunModel, line: Seq<char>) -> bool {
    ||| m.pending == Some(line)
    ||| m.data.contains(line)
    ||| in_failures(m, line)
}

proof fn lemma_push_keeps(m: RunModel, r: RunModel, failure: Seq<char>, line: Seq<char>)
    requires
        r.failures == m.failures.push(failure),
        in_failures(m, line) || text::has_text(failure, line),
    ensures
        in_failures(r, line),
{
    if in_failures(m, line) {
        let k = choose|k: int|
            0 <= k < m.failures.len() && text::has_text(#[trigger] m.failures[k], line);
        assert(r.failures[k] == m.failures[k]);
    } else {
        assert(r.failures[m.failures.len() as int] == failure);
    }
}

proof fn lemma_data_closed_keeps(m: RunModel, line: Seq<char>)
    requires
        kept(m, line),
    ensures
        kept(m.data_closed(), line),
        m.pending != Some(line) ==> in_failures(m.data_closed(), line),
{
    if m.data.len() > 0 {
        let block = match m.pending {
            None => m.data,
            Some(fail) => seq![fail] + m.data,
        };
        let failure = text::joined(block, "\n"@);
        if !in_failures(m, line) {
            assert(block.contains(line)) by {
                if m.pending == Some(line) {
                    assert(block[0] == line);
                } else {
                    let j = choose|j: int| 0 <= j < m.data.len() && m.data[j] == line;
                    assert(block[j + block.len() - m.data.len()] == line);
                }
            }
            let j = choose|j: int| 0 <= j < block.len() && block[j] == line;
            containment::lemma_joined_holds(block, "\n"@, j);
        }
        lemma_push_keeps(m, m.data_closed(), failure, line);
    }
}

proof fn lemma_settled_keeps(m: RunModel, line: Seq<char>)
    requires
        kept(m, line),
    ensures
        in_failures(m.settled(), line),
{
    lemma_data_closed_keeps(m, line);
    let c = m.data_closed();
    if let Some(fail) = c.pending {
        if !in_failures(c, line) {
            containment::lemma_itself(line);
        }
        lemma_push_keeps(c, m.settled(), fail, line);
    }
}

proof fn lemma_same_keeps(m: RunModel, r: RunModel, line: Seq<char>)
    requires
        kept(m, line),
        r.pending == m.pending,
        r.data == m.data,
        r.failures == m.failures,
    ensures
        kept(r, line),
        in_failures(m, line) ==> in_failures(r, line),
{
    if in_failures(m, line) {
        let k = choose|k: int|
            0 <= k < m.failures.len() && text::has_text(#[trigger] m.failures[k], line);
        assert(text::has_text(r.failures[k], line));
    }
}

proof fn lemma_line_keeps(m: RunModel, next: Seq<char>, line: Seq<char>)
    requires
        kept(m, line),
    ensures
        kept(m.with_line(next), line),
{
    let d = m.data.push(next);
    assert(m.data.contains(line) ==> d.contains(line)) by {
        if m.data.contains(line) {
            let j = choose|j: int| 0 <= j < m.data.len() && m.data[j] == line;
            assert(d[j] == line);
        }
    }
    let calm = RunModel { in_warning: false, ..m };
    let r = m.with_line(next);
    lemma_same_keeps(m, calm, line);
    lemma_data_closed_keeps(calm, line);
    lemma_settled_keeps(calm, line);
    if r.failures == m.failures && r.pending == m.pending && (r.data == m.data || r.data == d) {
        lemma_same_keeps(m, RunModel { data: m.data, ..r }, line);
    } else if test_output::line_kind(next) is Fail {
        lemma_same_keeps(calm.settled(), RunModel { pending: None, ..r }, line);
    } else {
        lemma_same_keeps(calm.data_closed(), r, line);
    }
}

proof fn lemma_line_starts(m: RunModel, line: Seq<char>)
    requires
        tells_failure(m, line),
    ensures
        kept(m.with_line(line), line),
{
    let d = m.data.push(line);
    assert(d[m.data.len() as int] == line);
    if test_output::breaks_table(line) {
        lemma_no_border(line);
    }
}

proof fn lemma_kept_on(lines: Seq<Seq<char>>, i: int, j: int, line: Seq<char>)
    requires
        0 <= i <= j <= lines.len(),
        kept(before(lines, i), line),
    ensures
        kept(before(lines, j), line),
    decreases j - i,
{
    if i < j {
        lemma_kept_on(lines, i, j - 1, line);
        lemma_next(lines, j - 1);
        lemma_line_keeps(before(lines, j - 1), lines[j - 1], line);
    }
}

/// Every line that tells of a failure stands in one.
pub proof fn lemma_failure_kept(output: Seq<char>, i: int) -> (k: int)
    requires
        0 <= i < text::lines_of(output).len(),
        tells_failure(before(text::lines_of(output), i), text::lines_of(output)[i]),
    ensures
        0 <= k < test_output::run_model(output).failures.len(),
        text::has_text(test_output::run_model(output).failures[k], text::lines_of(output)[i]),
{
    let lines = text::lines_of(output);
    let line = lines[i];
    let m = test_output::run_model(output);
    lemma_next(lines, i);
    lemma_line_starts(before(lines, i), line);
    lemma_kept_on(lines, i + 1, lines.len() as int, line);
    lemma_all_read(lines);
    lemma_settled_keeps(test_output::scanned(lines), line);
    choose|k: int| 0 <= k < m.failures.len() && text::has_text(#[trigger] m.failures[k], line)
}

/// Every line that tells of a failure stands in the view. Only white space at its ends may be
/// missing.
pub proof fn law_failures_shown(output: Seq<char>, i: int)
    requires
        0 <= i < text::lines_of(output).len(),
        tells_failure(before(text::lines_of(output), i), text::lines_of(output)[i]),
    ensures
        text::has_text(view_of(output), text::trimmed(text::lines_of(output)[i])),
{
    let line = text::lines_of(output)[i];
    let m = test_output::run_model(output);
    let k = lemma_failure_kept(output, i);
    let all = text::each_ended(m.failures, "\n\n"@);
    let gap: Seq<char> = if m.gas_entries.len() > 0 {
        "\n"@
    } else {
        seq![]
    };
    let section = test_output::gas_section(m.gas_entries);
    containment::lemma_each_ended_holds(m.failures, "\n\n"@, k);
    containment::lemma_through(all, m.failures[k], line);
    containment::lemma_in_first(all, section, line);
    containment::lemma_in_first(all + section, gap, line);
    containment::lemma_in_first(all + section + gap, test_output::summary_lines(m), line);
    containment::lemma_trimming_keeps(all + section + gap + test_output::summary_lines(m), line);
}

proof fn lemma_with_line_packages(m: RunModel, line: Seq<char>)
    ensures
        m.package_summaries.is_prefix_of(m.with_line(line).package_summaries),
{
}

proof fn lemma_packages_on(lines: Seq<Seq<char>>, i: int, j: int)
    requires
        0 <= i <= j <= lines.len(),
    ensures
        before(lines, i).package_summaries.is_prefix_of(before(lines, j).package_summaries),
    decreases j - i,
{
    if i < j {
        lemma_packages_on(lines, i, j - 1);
        lemma_next(lines, j - 1);
        lemma_with_line_packages(before(lines, j - 1), lines[j - 1]);
    }
}

/// No summary of a package is lost.
pub proof fn law_no_package_lost(output: Seq<char>, i: int)
    requires
        0 <= i < text::lines_of(output).len(),
        sums_up_package(before(text::lines_of(output), i), text::lines_of(output)[i]),
    ensures
        test_output::run_model(output).package_summaries.contains(text::lines_of(output)[i]),
{
    let lines = text::lines_of(output);
    let m = before(lines, i + 1);
    let end = test_output::scanned(lines);
    lemma_next(lines, i);
    lemma_no_border(lines[i]);
    lemma_packages_on(lines, i + 1, lines.len() as int);
    lemma_all_read(lines);
    let k = m.package_summaries.len() - 1;
    assert(m.package_summaries[k] == lines[i]);
    assert(end.package_summaries[k] == lines[i]);
    assert(test_output::run_model(output).package_summaries[k] == lines[i]);
}

proof fn lemma_global_on(lines: Seq<Seq<char>>, i: int, j: int)
    requires
        0 <= i <= j <= lines.len(),
        forall|k: int| i <= k < j ==> !sums_up_run(before(lines, k), #[trigger] lines[k]),
    ensures
        before(lines, j).global_summary == before(lines, i).global_summary,
    decreases j - i,
{
    if i < j {
        lemma_global_on(lines, i, j - 1);
        lemma_next(lines, j - 1);
        assert(!sums_up_run(before(lines, j - 1), lines[j - 1]));
        if test_output::breaks_table(lines[j - 1]) {
            lemma_no_border(lines[j - 1]);
        }
    }
}

/// The last summary of the whole run is the one that counts.
pub proof fn law_last_summary_counts(output: Seq<char>, i: int)
    requires
        ({
            let lines = text::lines_of(output);
            &&& 0 <= i < lines.len()
            &&& sums_up_run(before(lines, i), lines[i])
            &&& forall|k: int|
                i < k < lines.len() ==> !sums_up_run(before(lines, k), #[trigger] lines[k])
        }),
    ensures
        test_output::run_model(output).global_summary == Some(text::lines_of(output)[i]),
{
    let lines = text::lines_of(output);
    lemma_next(lines, i);
    lemma_no_border(lines[i]);
    lemma_global_on(lines, i + 1, lines.len() as int);
    lemma_all_read(lines);
}

/// Whether `line` is among the summary lines.
pub open spec fn is_summary(m: RunModel, line: Seq<char>) -> bool {
    m.package_summaries.contains(line) || m.global_summary == Some(line)
}

/// Every summary line stands in a view that shows failures or has no compact line. Only white
/// space at its ends may be missing.
pub proof fn law_summaries_kept(output: Seq<char>, line: Seq<char>)
    requires
        ({
            let m = test_output::run_model(output);
            &&& is_summary(m, line)
            &&& m.failures.len() > 0 || test_output::run_summary(m) is None
        }),
    ensures
        text::has_text(view_of(output), text::trimmed(line)),
{
    let m = test_output::run_model(output);
    let packages = text::each_ended(m.package_summaries, "\n"@);
    let whole: Seq<char> = match m.global_summary {
        None => seq![],
        Some(global) => global + "\n"@,
    };
    let section = test_output::gas_section(m.gas_entries);
    if m.package_summaries.contains(line) {
        let k = choose|k: int| 0 <= k < m.package_summaries.len() && m.package_summaries[k] == line;
        containment::lemma_each_ended_holds(m.package_summaries, "\n"@, k);
        containment::lemma_in_first(packages, whole, line);
    } else {
        containment::lemma_itself(line);
        containment::lemma_in_first(line, "\n"@, line);
        containment::lemma_in_second(packages, whole, line);
    }
    if m.failures.len() > 0 {
        let gap: Seq<char> = if m.gas_entries.len() > 0 {
            "\n"@
        } else {
            seq![]
        };
        let start = text::each_ended(m.failures, "\n\n"@) + section + gap;
        containment::lemma_in_second(start, test_output::summary_lines(m), line);
        containment::lemma_trimming_keeps(start + test_output::summary_lines(m), line);
    } else {
        let start = text::each_ended(m.details, "\n"@) + section;
        containment::lemma_in_second(start, test_output::summary_lines(m), line);
        containment::lemma_trimming_keeps(start + test_output::summary_lines(m), line);
    }
}

/// Every entry of a gas report table stands in the view. Only white space at its ends may be
/// missing.
pub proof fn law_gas_entries_shown(output: Seq<char>, k: int)
    requires
        0 <= k < test_output::run_model(output).gas_entries.len(),
    ensures
        text::has_text(
            view_of(output),
            text::trimmed(test_output::run_model(output).gas_entries[k]),
        ),
{
    let m = test_output::run_model(output);
    let compact = test_output::run_summary(m);
    let p = m.gas_entries[k];
    let indented = m.gas_entries.map_values(|e: Seq<char>| "  "@ + e);
    let entries = text::each_ended(indented, "\n"@);
    let section = test_output::gas_section(m.gas_entries);
    containment::lemma_each_ended_holds(indented, "\n"@, k);
    assert(indented[k] == "  "@ + p);
    containment::lemma_itself(p);
    containment::lemma_in_second("  "@, p, p);
    containment::lemma_through(entries, indented[k], p);
    containment::lemma_in_second("Gas report:\n"@, entries, p);
    if m.failures.len() > 0 {
        let all = text::each_ended(m.failures, "\n\n"@);
        let gap = "\n"@;
        containment::lemma_in_second(all, section, p);
        containment::lemma_in_first(all + section, gap, p);
        containment::lemma_in_first(all + section + gap, test_output::summary_lines(m), p);
        containment::lemma_trimming_keeps(all + section + gap + test_output::summary_lines(m), p);
    } else {
        let all = text::each_ended(m.details, "\n"@);
        let end = match compact {
            None => test_output::summary_lines(m),
            Some(line) => line + "\n"@,
        };
        containment::lemma_in_second(all, section, p);
        containment::lemma_in_first(all + section, end, p);
        containment::lemma_trimming_keeps(all + section + end, p);
    }
}

/// Every compressed line stands in a view that shows no failures. Only white space at its ends
/// may be missing.
pub proof fn law_details_shown(output: Seq<char>, k: int)
    requires
        test_output::run_model(output).failures.len() == 0,
        0 <= k < test_output::run_model(output).details.len(),
    ensures
        text::has_text(
            view_of(output),
            text::trimmed(test_output::run_model(output).details[k]),
        ),
{
    let m = test_output::run_model(output);
    let p = m.details[k];
    let all = text::each_ended(m.details, "\n"@);
    let section = test_output::gas_section(m.gas_entries);
    let end = match test_output::run_summary(m) {
        None => test_output::summary_lines(m),
        Some(line) => line + "\n"@,
    };
    containment::lemma_each_ended_holds(m.details, "\n"@, k);
    containment::lemma_in_first(all, section, p);
    containment::lemma_in_first(all + section, end, p);
    containment::lemma_trimming_keeps(all + section + end, p);
}

/// Whether `line` may stand in a failure: it is one of `lines`, and tells neither of compiling or
/// fetching, nor of a test that passed or was ignored, nor of resources.
pub open spec fn may_show(lines: Seq<Seq<char>>, line: Seq<char>) -> bool {
    &&& lines.contains(line)
    &&& !test_output::compilation_noise(line)
    &&& !test_output::warning_start(line)
    &&& match test_output::line_kind(line) {
        RunLine::Fail => true,
        RunLine::FailureData => true,
        RunLine::Other => true,
        _ => false,
    }
}

/// Whether a failure is made of lines that may stand in one.
pub open spec fn made_of_shown(lines: Seq<Seq<char>>, failure: Seq<char>) -> bool {
    exists|ls: Seq<Seq<char>>|
        {
            &&& failure == #[trigger] text::joined(ls, "\n"@)
            &&& ls.len() > 0
            &&& forall|j: int| 0 <= j < ls.len() ==> may_show(lines, #[trigger] ls[j])
        }
}

spec fn all_shown(lines: Seq<Seq<char>>, m: RunModel) -> bool {
    &&& forall|k: int| 0 <= k < m.failures.len() ==> made_of_shown(lines, #[trigger] m.failures[k])
    &&& forall|j: int| 0 <= j < m.data.len() ==> may_show(lines, #[trigger] m.data[j])
    &&& m.pending is Some ==> may_show(lines, m.pending->0)
}

proof fn lemma_data_closed_shown(lines: Seq<Seq<char>>, m: RunModel)
    requires
        all_shown(lines, m),
    ensures
        all_shown(lines, m.data_closed()),
{
    if m.data.len() > 0 {
        let block = match m.pending {
            None => m.data,
            Some(fail) => seq![fail] + m.data,
        };
        assert(made_of_shown(lines, text::joined(block, "\n"@)));
    }
}

proof fn lemma_settled_shown(lines: Seq<Seq<char>>, m: RunModel)
    requires
        all_shown(lines, m),
    ensures
        all_shown(lines, m.settled()),
{
    lemma_data_closed_shown(lines, m);
    let c = m.data_closed();
    if let Some(fail) = c.pending {
        assert(text::joined(seq![fail], "\n"@) == fail);
        assert(made_of_shown(lines, fail));
    }
}

proof fn lemma_line_shown(lines: Seq<Seq<char>>, m: RunModel, line: Seq<char>)
    requires
        all_shown(lines, m),
        lines.contains(line),
    ensures
        all_shown(lines, m.with_line(line)),
{
    let calm = RunModel { in_warning: false, ..m };
    lemma_data_closed_shown(lines, calm);
    lemma_settled_shown(lines, calm);
}

proof fn lemma_scan_shown(lines: Seq<Seq<char>>, i: int)
    requires
        0 <= i <= lines.len(),
    ensures
        all_shown(lines, before(lines, i)),
    decreases i,
{
    if i > 0 {
        lemma_scan_shown(lines, i - 1);
        lemma_next(lines, i - 1);
        lemma_line_shown(lines, before(lines, i - 1), lines[i - 1]);
    }
}

/// The failures hold lines of the output and nothing else, and no line that tells of compiling,
/// of tests that passed or were ignored, or of resources.
pub proof fn law_failures_hold_no_noise(output: Seq<char>, k: int)
    requires
        0 <= k < test_output::run_model(output).failures.len(),
    ensures
        made_of_shown(text::lines_of(output), test_output::run_model(output).failures[k]),
{
    let lines = text::lines_of(output);
    lemma_scan_shown(lines, lines.len() as int);
    lemma_all_read(lines);
    lemma_settled_shown(lines, test_output::scanned(lines));
}

/// The view neither begins nor ends with white space.
pub proof fn law_view_trimmed(output: Seq<char>)
    ensures
        text::trimmed(view_of(output)) == view_of(output),
{
    let m = test_output::run_model(output);
    let compact = test_output::run_summary(m);
    let view = view_of(output);
    if m.failures.len() > 0 {
        containment::lemma_trimmed_twice(
            text::each_ended(m.failures, "\n\n"@) + test_output::gas_section(m.gas_entries) + (
            if m.gas_entries.len() > 0 {
                "\n"@
            } else {
                seq![]
            }) + test_output::summary_lines(m),
        );
    } else if m.details.len() == 0 && m.gas_entries.len() == 0 && compact is Some {
        reveal_strlit("✓ snforge test: ");
        reveal_strlit(")");
        assert(view[0] == '✓');
        assert(view.last() == ')');
        containment::lemma_trimmed_already(view);
    } else {
        containment::lemma_trimmed_twice(
            text::each_ended(m.details, "\n"@) + test_output::gas_section(m.gas_entries) + (
            match compact {
                None => test_output::summary_lines(m),
                Some(line) => line + "\n"@,
            }),
        );
    }
}

} // verus!
