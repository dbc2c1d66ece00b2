//! How the lines of a test run's output make its failures, summaries and details: what each
//! passage adds to what stands before it.
use crate::containment;
use crate::snforge_cmd::gas;
use crate::snforge_cmd::test_laws;
use crate::snforge_cmd::test_output;
use crate::snforge_cmd::test_output::RunModel;
use crate::text;
use vstd::prelude::*;

verus! {

/// What the given lines hold.
pub open spec fn model_of(lines: Seq<Seq<char>>) -> RunModel {
    test_output::scanned(lines).settled()
}

/// Whether a line tells of compiling, fetching or finishing.
pub open spec fn tells_compiling(line: Seq<char>) -> bool {
    let start = text::trimmed_start(line);
    ||| "Compiling "@.is_prefix_of(start)
    ||| "Checking "@.is_prefix_of(start)
    ||| "Blocking waiting for file lock"@.is_prefix_of(start)
    ||| "Downloading "@.is_prefix_of(start)
    ||| "Downloaded "@.is_prefix_of(start)
    ||| "Locking "@.is_prefix_of(start)
    ||| "Updating "@.is_prefix_of(start)
    ||| "Finished "@.is_prefix_of(start)
}

/// Whether a line begins a compiler warning.
pub open spec fn begins_warning(line: Seq<char>) -> bool {
    "warn["@.is_prefix_of(line) || "warn: "@.is_prefix_of(line)
}

/// Whether a line is indented as the lines of a compiler warning are.
pub open spec fn is_indented(line: Seq<char>) -> bool {
    "    "@.is_prefix_of(line) || (line.len() > 0 && line[0] == '\t')
}

/// Whether a line begins, after white space, with the given character.
pub open spec fn begins_with(line: Seq<char>, c: char) -> bool {
    let t = text::trimmed(line);
    t.len() > 0 && t[0] == c
}

/// Whether a line tells that tests start or were ignored, or gives figures that stand elsewhere.
pub open spec fn tells_nothing(line: Seq<char>) -> bool {
    let t = text::trimmed(line);
    ||| "sierra gas:"@.is_prefix_of(t)
    ||| "No contract gas usage data"@.is_prefix_of(t)
    ||| "Running "@.is_prefix_of(t) && text::has_text(t, "test(s) from"@)
    ||| "[IGNORED]"@.is_prefix_of(t)
}

/// Whether a line gives the resources that a test used.
pub open spec fn tells_resource(line: Seq<char>) -> bool {
    let t = text::trimmed(line);
    ||| "syscalls:"@.is_prefix_of(t)
    ||| "builtins:"@.is_prefix_of(t)
    ||| "l2_l1_message_sizes:"@.is_prefix_of(t)
}

/// Whether a line tells that the tests of a package were collected.
pub open spec fn tells_collected(line: Seq<char>) -> bool {
    let t = text::trimmed(line);
    "Collected "@.is_prefix_of(t) && text::has_text(t, "test(s) from"@)
}

/// Whether a line tells that a test passed.
pub open spec fn tells_pass(line: Seq<char>) -> bool {
    "[PASS]"@.is_prefix_of(text::trimmed(line))
}

/// Whether a line tells that a test failed.
pub open spec fn tells_fail(line: Seq<char>) -> bool {
    "[FAIL]"@.is_prefix_of(text::trimmed(line))
}

/// Whether a line is the heading of what a failed test left.
pub open spec fn heads_data(line: Seq<char>) -> bool {
    text::trimmed(line) == "Failure data:"@
}

/// Whether a line sums up the whole run.
pub open spec fn sums_up_run(line: Seq<char>) -> bool {
    "Tests summary:"@.is_prefix_of(text::trimmed(line))
}

/// Whether a line sums up the tests of a package.
pub open spec fn sums_up_package(line: Seq<char>) -> bool {
    let t = text::trimmed(line);
    "Tests:"@.is_prefix_of(t) && text::has_text(t, "passed"@)
}

/// Whether a line is of no kind that is told by its first words.
pub open spec fn is_ordinary(line: Seq<char>) -> bool {
    &&& !tells_compiling(line)
    &&& !begins_warning(line)
    &&& !begins_with(line, '╭')
    &&& !tells_nothing(line)
    &&& !tells_resource(line)
    &&& !tells_collected(line)
    &&& !tells_pass(line)
    &&& !tells_fail(line)
    &&& !heads_data(line)
}

/// Whether no line begins a compiler warning or a table.
pub open spec fn is_bare(lines: Seq<Seq<char>>) -> bool {
    forall|i: int|
        0 <= i < lines.len() ==> !begins_warning(#[trigger] lines[i]) && !begins_with(
            lines[i],
            '╭',
        )
}

/// Whether each line is ordinary and not blank.
pub open spec fn all_ordinary(lines: Seq<Seq<char>>) -> bool {
    forall|i: int|
        0 <= i < lines.len() ==> is_ordinary(#[trigger] lines[i]) && !text::blank(lines[i])
}

/// Whether each line is blank.
pub open spec fn all_blank(lines: Seq<Seq<char>>) -> bool {
    forall|i: int| 0 <= i < lines.len() ==> text::blank(#[trigger] lines[i])
}

/// What trimming leaves of a text begins as the text does after the white space at its start.
proof fn lemma_trimmed_first(s: Seq<char>)
    ensures
        text::trimmed_end(s).len() <= s.len(),
        forall|j: int|
            0 <= j < text::trimmed_end(s).len() ==> #[trigger] text::trimmed_end(s)[j] == s[j],
    decreases s.len(),
{
    if s.len() > 0 && text::is_white(s.last()) {
        lemma_trimmed_first(s.drop_last());
    }
}

pub proof fn lemma_prefix(p: Seq<char>, s: Seq<char>, j: int)
    requires
        p.is_prefix_of(s),
        0 <= j < p.len(),
    ensures
        p.len() <= s.len(),
        s[j] == p[j],
{
    assert(p[j] == s.subrange(0, p.len() as int)[j]);
}

/// The first characters of what is left of a line that is of a kind.
proof fn lemma_first_words(line: Seq<char>)
    ensures
        ({
            let t = text::trimmed(line);
            &&& tells_fail(line) ==> t.len() > 5 && t[0] == '[' && t[1] == 'F'
            &&& tells_pass(line) ==> t.len() > 5 && t[0] == '[' && t[1] == 'P'
            &&& heads_data(line) ==> t.len() > 5 && t[0] == 'F' && t[1] == 'a'
            &&& sums_up_run(line) ==> t.len() > 5 && t[0] == 'T' && t[5] == ' '
            &&& sums_up_package(line) ==> t.len() > 5 && t[0] == 'T' && t[5] == ':'
            &&& tells_collected(line) ==> t.len() > 5 && t[0] == 'C' && t[1] == 'o' && t[2] == 'l'
            &&& tells_resource(line) ==> t.len() > 5 && (t[0] == 's' && t[1] == 'y' || t[0] == 'b'
                || t[0] == 'l')
            &&& tells_nothing(line) ==> t.len() > 5 && (t[0] == 's' && t[1] == 'i' || t[0] == 'N'
                || t[0] == 'R' || t[0] == '[' && t[1] == 'I')
        }),
{
    reveal_strlit("sierra gas:");
    reveal_strlit("syscalls:");
    reveal_strlit("builtins:");
    reveal_strlit("l2_l1_message_sizes:");
    reveal_strlit("No contract gas usage data");
    reveal_strlit("Running ");
    reveal_strlit("Collected ");
    reveal_strlit("[PASS]");
    reveal_strlit("[IGNORED]");
    reveal_strlit("[FAIL]");
    reveal_strlit("Failure data:");
    reveal_strlit("Tests summary:");
    reveal_strlit("Tests:");
    let t = text::trimmed(line);
    if "sierra gas:"@.is_prefix_of(t) {
        lemma_prefix("sierra gas:"@, t, 0);
        lemma_prefix("sierra gas:"@, t, 1);
    }
    if "syscalls:"@.is_prefix_of(t) {
        lemma_prefix("syscalls:"@, t, 0);
        lemma_prefix("syscalls:"@, t, 1);
    }
    if "builtins:"@.is_prefix_of(t) {
        lemma_prefix("builtins:"@, t, 0);
    }
    if "l2_l1_message_sizes:"@.is_prefix_of(t) {
        lemma_prefix("l2_l1_message_sizes:"@, t, 0);
    }
    if "No contract gas usage data"@.is_prefix_of(t) {
        lemma_prefix("No contract gas usage data"@, t, 0);
    }
    if "Running "@.is_prefix_of(t) {
        lemma_prefix("Running "@, t, 0);
    }
    if "Collected "@.is_prefix_of(t) {
        lemma_prefix("Collected "@, t, 0);
        lemma_prefix("Collected "@, t, 1);
        lemma_prefix("Collected "@, t, 2);
    }
    if "[PASS]"@.is_prefix_of(t) {
        lemma_prefix("[PASS]"@, t, 0);
        lemma_prefix("[PASS]"@, t, 1);
    }
    if "[IGNORED]"@.is_prefix_of(t) {
        lemma_prefix("[IGNORED]"@, t, 0);
        lemma_prefix("[IGNORED]"@, t, 1);
    }
    if "[FAIL]"@.is_prefix_of(t) {
        lemma_prefix("[FAIL]"@, t, 0);
        lemma_prefix("[FAIL]"@, t, 1);
    }
    if "Tests summary:"@.is_prefix_of(t) {
        lemma_prefix("Tests summary:"@, t, 0);
        lemma_prefix("Tests summary:"@, t, 5);
    }
    if "Tests:"@.is_prefix_of(t) {
        lemma_prefix("Tests:"@, t, 0);
        lemma_prefix("Tests:"@, t, 5);
    }
}

/// The first characters of a line that tells of compiling.
proof fn lemma_first_compiling(line: Seq<char>)
    requires
        tells_compiling(line),
    ensures
        ({
            let s = text::trimmed_start(line);
            &&& s.len() > 5
            &&& ({
                ||| s[0] == 'C' && s[1] == 'o' && s[2] == 'm'
                ||| s[0] == 'C' && s[1] == 'h'
                ||| s[0] == 'B'
                ||| s[0] == 'D'
                ||| s[0] == 'L'
                ||| s[0] == 'U'
                ||| s[0] == 'F' && s[1] == 'i'
            })
        }),
{
    reveal_strlit("Compiling ");
    reveal_strlit("Checking ");
    reveal_strlit("Blocking waiting for file lock");
    reveal_strlit("Downloading ");
    reveal_strlit("Downloaded ");
    reveal_strlit("Locking ");
    reveal_strlit("Updating ");
    reveal_strlit("Finished ");
    let s = text::trimmed_start(line);
    if "Compiling "@.is_prefix_of(s) {
        lemma_prefix("Compiling "@, s, 0);
        lemma_prefix("Compiling "@, s, 1);
        lemma_prefix("Compiling "@, s, 2);
    } else if "Checking "@.is_prefix_of(s) {
        lemma_prefix("Checking "@, s, 0);
        lemma_prefix("Checking "@, s, 1);
    } else if "Blocking waiting for file lock"@.is_prefix_of(s) {
        lemma_prefix("Blocking waiting for file lock"@, s, 0);
    } else if "Downloading "@.is_prefix_of(s) {
        lemma_prefix("Downloading "@, s, 0);
    } else if "Downloaded "@.is_prefix_of(s) {
        lemma_prefix("Downloaded "@, s, 0);
    } else if "Locking "@.is_prefix_of(s) {
        lemma_prefix("Locking "@, s, 0);
    } else if "Updating "@.is_prefix_of(s) {
        lemma_prefix("Updating "@, s, 0);
    } else {
        lemma_prefix("Finished "@, s, 0);
        lemma_prefix("Finished "@, s, 1);
    }
}

/// How a line is read by its first words.
pub proof fn lemma_kinds(line: Seq<char>)
    ensures
        ({
            let kind = test_output::line_kind(line);
            &&& kind is Fail == tells_fail(line)
            &&& kind is FailureData == heads_data(line)
            &&& kind is Pass == tells_pass(line)
            &&& kind is Collected == tells_collected(line)
            &&& kind is Resource == tells_resource(line)
            &&& kind is Dropped == tells_nothing(line)
        }),
        test_output::compilation_noise(line) == tells_compiling(line),
        test_output::warning_start(line) == begins_warning(line),
        gas::table_start(line) == begins_with(line, '╭'),
        gas::table_end(line) == begins_with(line, '╰'),
        test_output::run_summary_line(line) == sums_up_run(line),
        test_output::package_summary_line(line) == sums_up_package(line),
        sums_up_run(line) || sums_up_package(line) ==> test_output::line_kind(line) is Other
            && !heads_data(line),
        !(sums_up_run(line) && sums_up_package(line)),
        tells_fail(line) || heads_data(line) || tells_pass(line) || tells_collected(line)
            || tells_nothing(line) || tells_resource(line) || sums_up_run(line) || sums_up_package(
            line,
        ) ==> {
            &&& !tells_compiling(line)
            &&& !begins_with(line, '╭')
            &&& !begins_with(line, '╰')
            &&& !text::blank(line)
            &&& !is_indented(line) ==> !test_output::warning_detail(line)
        },
        text::blank(line) ==> {
            &&& test_output::line_kind(line) is Other
            &&& !tells_compiling(line)
            &&& !begins_with(line, '╭')
            &&& !begins_with(line, '╰')
        },
{
    reveal_strlit("-->");
    reveal_strlit("[FAIL]");
    reveal_strlit("Failure data:");
    let t = text::trimmed(line);
    let s = text::trimmed_start(line);
    lemma_first_words(line);
    lemma_trimmed_first(s);
    if tells_compiling(line) {
        lemma_first_compiling(line);
    }
    if "-->"@.is_prefix_of(t) {
        lemma_prefix("-->"@, t, 0);
    }
    if t.len() > 5 {
        assert(t[0] == s[0] && t[1] == s[1] && t[2] == s[2]);
    }
    if text::blank(line) {
        text::lemma_trimmed_start_at(line, line.len() as int);
        assert(s.len() == 0);
    }
    assert(text::blank(line) ==> t.len() == 0);
}

pub proof fn lemma_scan_push(a: Seq<Seq<char>>, line: Seq<char>)
    ensures
        test_output::scanned(a.push(line)) == test_output::scanned(a).with_line(line),
{
    assert(a.push(line).drop_last() =~= a);
}

/// Nothing but the kinds of lines that begin them leads into warnings and tables.
pub proof fn lemma_bare(lines: Seq<Seq<char>>)
    requires
        is_bare(lines),
    ensures
        !test_output::scanned(lines).in_warning,
        test_output::scanned(lines).table.len() == 0,
    decreases lines.len(),
{
    if lines.len() > 0 {
        let rest = lines.drop_last();
        assert forall|i: int| 0 <= i < rest.len() implies !begins_warning(#[trigger] rest[i])
            && !begins_with(rest[i], '╭') by {
            assert(rest[i] == lines[i]);
        }
        lemma_bare(rest);
        lemma_kinds(lines.last());
        assert(lines.last() == lines[lines.len() - 1]);
    }
}

proof fn lemma_bare_push(lines: Seq<Seq<char>>, line: Seq<char>)
    requires
        is_bare(lines),
        !begins_warning(line),
        !begins_with(line, '╭'),
    ensures
        is_bare(lines.push(line)),
{
}

/// A `[FAIL]` line settles what stands before it.
proof fn lemma_fail_read(a: Seq<Seq<char>>, fail: Seq<char>)
    requires
        tells_fail(fail),
        !is_indented(fail),
    ensures
        ({
            let m = test_output::scanned(a.push(fail));
            let before = model_of(a);
            &&& m.failures == before.failures
            &&& m.pending == Some(fail)
            &&& m.data.len() == 0
            &&& m.table.len() == 0
            &&& !m.in_warning
            &&& m.details == before.details
            &&& m.package_summaries == before.package_summaries
            &&& m.global_summary == before.global_summary
            &&& m.packages == before.packages
            &&& before.gas_entries.is_prefix_of(m.gas_entries)
        }),
{
    lemma_scan_push(a, fail);
    lemma_kinds(fail);
    lemma_no_warning(fail);
    let m = test_output::scanned(a);
    if m.table.len() > 0 {
        let e = m.gas_entries + gas::table_entries(m.table);
        assert(e.subrange(0, m.gas_entries.len() as int) =~= m.gas_entries);
    } else {
        assert(m.gas_entries.subrange(0, m.gas_entries.len() as int) =~= m.gas_entries);
    }
}

/// A line that tells of a failure or heads what it left begins no warning.
pub proof fn lemma_no_warning(line: Seq<char>)
    requires
        tells_fail(line) || heads_data(line) || tells_pass(line) || sums_up_run(line)
            || sums_up_package(line) || tells_collected(line) || tells_nothing(line)
            || tells_resource(line),
    ensures
        !begins_warning(line),
{
    reveal_strlit("warn[");
    reveal_strlit("warn: ");
    lemma_first_words(line);
    let t = text::trimmed(line);
    let s = text::trimmed_start(line);
    lemma_trimmed_first(s);
    assert(t[0] == s[0]);
    if "warn["@.is_prefix_of(line) {
        lemma_prefix("warn["@, line, 0);
        assert(s == line);
    }
    if "warn: "@.is_prefix_of(line) {
        lemma_prefix("warn: "@, line, 0);
        assert(s == line);
    }
}

/// Where two texts of lines hold the same, apart from the entries of tables.
pub open spec fn same_but_failures(m: RunModel, before: RunModel) -> bool {
    &&& m.details == before.details
    &&& m.package_summaries == before.package_summaries
    &&& m.global_summary == before.global_summary
    &&& m.packages == before.packages
    &&& before.gas_entries.is_prefix_of(m.gas_entries)
}

/// A failed test of which nothing more is told adds its line to the failures, whatever stands
/// before it, and changes nothing else.
pub proof fn law_fail_line_added(a: Seq<Seq<char>>, fail: Seq<char>)
    requires
        tells_fail(fail),
        !is_indented(fail),
    ensures
        model_of(a.push(fail)).failures == model_of(a).failures.push(fail),
        same_but_failures(model_of(a.push(fail)), model_of(a)),
{
    lemma_fail_read(a, fail);
}

/// A border of a table begins no warning, tells of no compiling, and belongs to a warning only
/// where it is indented.
pub proof fn lemma_border(line: Seq<char>)
    requires
        begins_with(line, '╭') || begins_with(line, '╰'),
    ensures
        !begins_warning(line),
        !tells_compiling(line),
        !text::blank(line),
        !is_indented(line) ==> !test_output::warning_detail(line),
{
    reveal_strlit("warn[");
    reveal_strlit("warn: ");
    reveal_strlit("-->");
    let t = text::trimmed(line);
    let s = text::trimmed_start(line);
    lemma_trimmed_first(s);
    assert(t[0] == s[0]);
    if tells_compiling(line) {
        lemma_first_compiling(line);
    }
    if "warn["@.is_prefix_of(line) {
        lemma_prefix("warn["@, line, 0);
        assert(s == line);
    }
    if "warn: "@.is_prefix_of(line) {
        lemma_prefix("warn: "@, line, 0);
        assert(s == line);
    }
    if "-->"@.is_prefix_of(t) {
        lemma_prefix("-->"@, t, 0);
    }
    lemma_kinds(line);
}

/// Blank lines leave a pending failure as it is.
proof fn lemma_blanks_read(a: Seq<Seq<char>>, blanks: Seq<Seq<char>>)
    requires
        all_blank(blanks),
        test_output::scanned(a).data.len() == 0,
        test_output::scanned(a).table.len() == 0,
        !test_output::scanned(a).in_warning,
    ensures
        test_output::scanned(a + blanks) == test_output::scanned(a),
    decreases blanks.len(),
{
    if blanks.len() == 0 {
        assert(a + blanks =~= a);
    } else {
        let rest = blanks.drop_last();
        let line = blanks.last();
        assert forall|i: int| 0 <= i < rest.len() implies text::blank(#[trigger] rest[i]) by {
            assert(rest[i] == blanks[i]);
        }
        lemma_blanks_read(a, rest);
        assert(a + blanks =~= (a + rest).push(line));
        lemma_scan_push(a + rest, line);
        assert(text::blank(blanks[blanks.len() - 1]));
        lemma_kinds(line);
        lemma_blank_no_warning(line);
    }
}

proof fn lemma_blank_no_warning(line: Seq<char>)
    requires
        text::blank(line),
    ensures
        !begins_warning(line),
        !sums_up_run(line),
        !sums_up_package(line),
{
    reveal_strlit("warn[");
    reveal_strlit("warn: ");
    lemma_kinds(line);
    if "warn["@.is_prefix_of(line) {
        lemma_prefix("warn["@, line, 0);
        assert(text::is_white(line[0]));
    }
    if "warn: "@.is_prefix_of(line) {
        lemma_prefix("warn: "@, line, 0);
        assert(text::is_white(line[0]));
    }
}

/// A heading opens failure data.
proof fn lemma_heading_read(a: Seq<Seq<char>>, heading: Seq<char>)
    requires
        heads_data(heading),
        !is_indented(heading) || !test_output::scanned(a).in_warning,
    ensures
        ({
            let before = test_output::scanned(a);
            let m = test_output::scanned(a.push(heading));
            &&& m.data == before.data.push(heading)
            &&& m.pending == before.pending
            &&& m.failures == before.failures
            &&& m.table.len() == 0
            &&& !m.in_warning
            &&& m.details == before.details
            &&& m.package_summaries == before.package_summaries
            &&& m.global_summary == before.global_summary
            &&& m.packages == before.packages
            &&& before.gas_entries.is_prefix_of(m.gas_entries)
        }),
{
    lemma_scan_push(a, heading);
    lemma_kinds(heading);
    lemma_no_warning(heading);
    let m = test_output::scanned(a);
    let e = m.gas_entries + gas::table_entries(m.table);
    assert(e.subrange(0, m.gas_entries.len() as int) =~= m.gas_entries);
    assert(m.gas_entries.subrange(0, m.gas_entries.len() as int) =~= m.gas_entries);
}

/// Ordinary lines carry failure data on, however many they are.
proof fn lemma_data_read(a: Seq<Seq<char>>, data: Seq<Seq<char>>)
    requires
        all_ordinary(data),
        test_output::scanned(a).data.len() > 0,
        test_output::scanned(a).table.len() == 0,
        !test_output::scanned(a).in_warning,
    ensures
        test_output::scanned(a + data) == (RunModel {
            data: test_output::scanned(a).data + data,
            ..test_output::scanned(a)
        }),
    decreases data.len(),
{
    let m = test_output::scanned(a);
    if data.len() == 0 {
        assert(a + data =~= a);
        assert(m.data + data =~= m.data);
    } else {
        let rest = data.drop_last();
        let line = data.last();
        assert forall|i: int| 0 <= i < rest.len() implies is_ordinary(#[trigger] rest[i])
            && !text::blank(rest[i]) by {
            assert(rest[i] == data[i]);
        }
        lemma_data_read(a, rest);
        assert(a + data =~= (a + rest).push(line));
        lemma_scan_push(a + rest, line);
        assert(is_ordinary(data[data.len() - 1]));
        lemma_kinds(line);
        assert((m.data + rest).push(line) =~= m.data + data);
    }
}

/// A failed test adds one failure, whatever stands before it: its line, and all that it left,
/// however long, up to a blank line. Nothing else changes.
pub proof fn law_failure_added(
    a: Seq<Seq<char>>,
    fail: Seq<char>,
    blanks: Seq<Seq<char>>,
    heading: Seq<char>,
    data: Seq<Seq<char>>,
    blank: Seq<char>,
)
    requires
        tells_fail(fail),
        !is_indented(fail),
        all_blank(blanks),
        heads_data(heading),
        all_ordinary(data),
        text::blank(blank),
    ensures
        ({
            let lines = (a.push(fail) + blanks).push(heading) + data;
            let failure = text::joined(seq![fail, heading] + data, "\n"@);
            &&& model_of(lines).failures == model_of(a).failures.push(failure)
            &&& same_but_failures(model_of(lines), model_of(a))
            &&& model_of(lines.push(blank)).failures == model_of(a).failures.push(failure)
            &&& same_but_failures(model_of(lines.push(blank)), model_of(a))
            &&& test_output::scanned(lines.push(blank)).pending is None
            &&& test_output::scanned(lines.push(blank)).data.len() == 0
        }),
{
    let b = a.push(fail);
    let c = b + blanks;
    let d = c.push(heading);
    let lines = d + data;
    lemma_fail_read(a, fail);
    lemma_blanks_read(b, blanks);
    lemma_heading_read(c, heading);
    lemma_data_read(d, data);
    let m = test_output::scanned(lines);
    assert(m.data =~= seq![heading] + data);
    assert(seq![fail] + m.data =~= seq![fail, heading] + data);
    lemma_scan_push(lines, blank);
    lemma_kinds(blank);
    lemma_blank_no_warning(blank);
    let g = test_output::scanned(c).gas_entries;
    let h = test_output::scanned(d).gas_entries;
    let f = model_of(a).gas_entries;
    assert(f.is_prefix_of(h)) by {
        assert(h.subrange(0, f.len() as int) =~= h.subrange(0, g.len() as int).subrange(
            0,
            f.len() as int,
        ));
    }
}

/// What a failed test left stands in the view, all of it in one place: the heading and every line
/// after it, however many, as long as they are neither blank nor of another kind. Only white
/// space at the ends of the passage may be missing.
pub proof fn law_failure_data_whole(output: Seq<char>, h: int, i: int)
    requires
        ({
            let lines = text::lines_of(output);
            &&& 0 <= h <= i < lines.len()
            &&& heads_data(lines[h])
            &&& !is_indented(lines[h]) || is_bare(lines.take(h))
            &&& forall|j: int|
                h < j <= i ==> is_ordinary(#[trigger] lines[j]) && !text::blank(lines[j])
        }),
    ensures
        ({
            let passage = text::joined(text::lines_of(output).subrange(h, i + 1), "\n"@);
            let m = test_output::run_model(output);
            &&& exists|k: int|
                0 <= k < m.failures.len() && text::has_text(#[trigger] m.failures[k], passage)
            &&& text::has_text(test_laws::view_of(output), text::trimmed(passage))
        }),
{
    let lines = text::lines_of(output);
    let m = test_output::run_model(output);
    let a = lines.take(h);
    let data = lines.subrange(h + 1, i + 1);
    if is_bare(a) {
        lemma_bare(a);
    }
    lemma_heading_read(a, lines[h]);
    assert forall|j: int| 0 <= j < data.len() implies is_ordinary(#[trigger] data[j])
        && !text::blank(data[j]) by {
        assert(data[j] == lines[h + 1 + j]);
    }
    lemma_data_read(a.push(lines[h]), data);
    assert(a.push(lines[h]) + data =~= lines.take(i + 1));
    let r = test_output::scanned(lines.take(i + 1));
    let first = test_output::scanned(a).data;
    let part = lines.subrange(h, i + 1);
    assert(r.data =~= first + part);
    lemma_passage_kept(lines, i + 1, first, part);
    assert(lines.take(lines.len() as int) =~= lines);
    let passage = text::joined(part, "\n"@);
    let k = choose|k: int|
        0 <= k < m.failures.len() && text::has_text(#[trigger] m.failures[k], passage);
    lemma_failure_in_view(output, k, passage);
}

/// What a failure holds, the view holds.
proof fn lemma_failure_in_view(output: Seq<char>, k: int, p: Seq<char>)
    requires
        0 <= k < test_output::run_model(output).failures.len(),
        text::has_text(test_output::run_model(output).failures[k], p),
    ensures
        text::has_text(test_laws::view_of(output), text::trimmed(p)),
{
    let m = test_output::run_model(output);
    let all = text::each_ended(m.failures, "\n\n"@);
    let gap: Seq<char> = if m.gas_entries.len() > 0 {
        "\n"@
    } else {
        seq![]
    };
    let section = test_output::gas_section(m.gas_entries);
    containment::lemma_each_ended_holds(m.failures, "\n\n"@, k);
    containment::lemma_through(all, m.failures[k], p);
    containment::lemma_in_first(all, section, p);
    containment::lemma_in_first(all + section, gap, p);
    containment::lemma_in_first(all + section + gap, test_output::summary_lines(m), p);
    containment::lemma_trimming_keeps(all + section + gap + test_output::summary_lines(m), p);
}

/// Whether the lines of `part` stand together in a failure, or are to stand in the next one.
spec fn holds(m: RunModel, first: Seq<Seq<char>>, part: Seq<Seq<char>>) -> bool {
    ||| (first + part).is_prefix_of(m.data)
    ||| exists|k: int|
        0 <= k < m.failures.len() && text::has_text(
            #[trigger] m.failures[k],
            text::joined(part, "\n"@),
        )
}

/// Lines that stand together in a list stand together once it is joined.
proof fn lemma_joined_part(first: Seq<Seq<char>>, part: Seq<Seq<char>>, last: Seq<Seq<char>>)
    requires
        part.len() > 0,
    ensures
        text::has_text(text::joined(first + part + last, "\n"@), text::joined(part, "\n"@)),
    decreases first.len(), last.len(),
{
    let all = first + part + last;
    let p = text::joined(part, "\n"@);
    if first.len() > 0 {
        lemma_joined_part(first.skip(1), part, last);
        assert(all.skip(1) =~= first.skip(1) + part + last);
        let rest = text::joined(all.skip(1), "\n"@);
        containment::lemma_in_second(all[0] + "\n"@, rest, p);
    } else if last.len() > 0 {
        lemma_joined_part(first, part, last.drop_last());
        let less = first + part + last.drop_last();
        assert(all =~= less.push(last.last()));
        containment::lemma_joined_push(less, last.last(), "\n"@);
        containment::lemma_in_first(text::joined(less, "\n"@), "\n"@, p);
        containment::lemma_in_first(text::joined(less, "\n"@) + "\n"@, last.last(), p);
    } else {
        assert(all =~= part);
        containment::lemma_itself(p);
    }
}

proof fn lemma_data_closed_holds(m: RunModel, first: Seq<Seq<char>>, part: Seq<Seq<char>>)
    requires
        part.len() > 0,
        holds(m, first, part),
    ensures
        exists|k: int|
            0 <= k < m.data_closed().failures.len() && text::has_text(
                #[trigger] m.data_closed().failures[k],
                text::joined(part, "\n"@),
            ),
{
    let c = m.data_closed();
    let p = text::joined(part, "\n"@);
    if exists|k: int| 0 <= k < m.failures.len() && text::has_text(#[trigger] m.failures[k], p) {
        let k = choose|k: int|
            0 <= k < m.failures.len() && text::has_text(#[trigger] m.failures[k], p);
        assert(c.failures[k] == m.failures[k]);
    } else {
        let n = (first + part).len() as int;
        let last = m.data.skip(n);
        assert(m.data =~= first + part + last);
        let head: Seq<Seq<char>> = match m.pending {
            None => seq![],
            Some(fail) => seq![fail],
        };
        let block = match m.pending {
            None => m.data,
            Some(fail) => seq![fail] + m.data,
        };
        assert(block =~= (head + first) + part + last);
        lemma_joined_part(head + first, part, last);
        assert(c.failures[m.failures.len() as int] == text::joined(block, "\n"@));
    }
}

proof fn lemma_settled_holds(m: RunModel, first: Seq<Seq<char>>, part: Seq<Seq<char>>)
    requires
        part.len() > 0,
        holds(m, first, part),
    ensures
        exists|k: int|
            0 <= k < m.settled().failures.len() && text::has_text(
                #[trigger] m.settled().failures[k],
                text::joined(part, "\n"@),
            ),
{
    lemma_data_closed_holds(m, first, part);
    let c = m.data_closed();
    let p = text::joined(part, "\n"@);
    let k = choose|k: int| 0 <= k < c.failures.len() && text::has_text(#[trigger] c.failures[k], p);
    assert(m.settled().failures[k] == c.failures[k]);
}

proof fn lemma_line_holds(
    m: RunModel,
    line: Seq<char>,
    first: Seq<Seq<char>>,
    part: Seq<Seq<char>>,
)
    requires
        part.len() > 0,
        holds(m, first, part),
    ensures
        holds(m.with_line(line), first, part),
{
    let r = m.with_line(line);
    let p = text::joined(part, "\n"@);
    let all = first + part;
    let n = all.len() as int;
    let calm = RunModel { in_warning: false, ..m };
    assert(holds(calm, first, part));
    lemma_data_closed_holds(calm, first, part);
    lemma_settled_holds(calm, first, part);
    if r.failures == m.failures {
        if all.is_prefix_of(m.data) {
            if r.data == m.data {
                assert(all.is_prefix_of(r.data));
            } else if r.data == m.data.push(line) {
                assert(m.data.push(line).subrange(0, n) =~= m.data.subrange(0, n));
            }
        } else {
            let k = choose|k: int|
                0 <= k < m.failures.len() && text::has_text(#[trigger] m.failures[k], p);
            assert(text::has_text(r.failures[k], p));
        }
    } else if r.failures == calm.settled().failures {
        let c = calm.settled();
        let k = choose|k: int|
            0 <= k < c.failures.len() && text::has_text(#[trigger] c.failures[k], p);
        assert(text::has_text(r.failures[k], p));
    } else {
        let c = calm.data_closed();
        let k = choose|k: int|
            0 <= k < c.failures.len() && text::has_text(#[trigger] c.failures[k], p);
        assert(text::has_text(r.failures[k], p));
    }
}

proof fn lemma_passage_kept(
    lines: Seq<Seq<char>>,
    i: int,
    first: Seq<Seq<char>>,
    part: Seq<Seq<char>>,
)
    requires
        0 <= i <= lines.len(),
        part.len() > 0,
        test_output::scanned(lines.take(i)).data == first + part,
    ensures
        ({
            let m = model_of(lines);
            exists|k: int|
                0 <= k < m.failures.len() && text::has_text(
                    #[trigger] m.failures[k],
                    text::joined(part, "\n"@),
                )
        }),
{
    let r = test_output::scanned(lines.take(i));
    assert(r.data.subrange(0, r.data.len() as int) =~= r.data);
    assert(holds(r, first, part));
    lemma_holds_on(lines, i, lines.len() as int, first, part);
    assert(lines.take(lines.len() as int) =~= lines);
    lemma_settled_holds(test_output::scanned(lines), first, part);
}

proof fn lemma_holds_on(
    lines: Seq<Seq<char>>,
    i: int,
    j: int,
    first: Seq<Seq<char>>,
    part: Seq<Seq<char>>,
)
    requires
        0 <= i <= j <= lines.len(),
        part.len() > 0,
        holds(test_output::scanned(lines.take(i)), first, part),
    ensures
        holds(test_output::scanned(lines.take(j)), first, part),
    decreases j - i,
{
    if i < j {
        lemma_holds_on(lines, i, j - 1, first, part);
        assert(lines.take(j) =~= lines.take(j - 1).push(lines[j - 1]));
        lemma_scan_push(lines.take(j - 1), lines[j - 1]);
        lemma_line_holds(test_output::scanned(lines.take(j - 1)), lines[j - 1], first, part);
    }
}

/// Whether a line ends what a failed test left.
pub open spec fn ends_data(line: Seq<char>) -> bool {
    text::blank(line) || tells_pass(line) || tells_fail(line)
}

/// Whether the last lines belong to what a failed test left: a heading stands before them, and
/// nothing has ended it since.
pub open spec fn in_data(lines: Seq<Seq<char>>) -> bool {
    exists|h: int|
        {
            &&& 0 <= h < lines.len()
            &&& heads_data(#[trigger] lines[h])
            &&& forall|j: int| h < j < lines.len() ==> !ends_data(#[trigger] lines[j])
        }
}

/// Whether the last failed test has left nothing yet.
pub open spec fn awaits_data(lines: Seq<Seq<char>>) -> bool {
    exists|f: int|
        {
            &&& 0 <= f < lines.len()
            &&& tells_fail(#[trigger] lines[f])
            &&& forall|j: int|
                f < j < lines.len() ==> !tells_fail(#[trigger] lines[j]) && !heads_data(lines[j])
        }
}

proof fn lemma_in_data_push(a: Seq<Seq<char>>, x: Seq<char>)
    ensures
        in_data(a.push(x)) == (heads_data(x) || (!ends_data(x) && in_data(a))),
{
    let all = a.push(x);
    lemma_kinds(x);
    lemma_first_words(x);
    if heads_data(x) {
        assert(heads_data(all[a.len() as int]));
        assert(in_data(all));
    } else {
        if in_data(a) && !ends_data(x) {
            let h = choose|h: int|
                {
                    &&& 0 <= h < a.len()
                    &&& heads_data(#[trigger] a[h])
                    &&& forall|j: int| h < j < a.len() ==> !ends_data(#[trigger] a[j])
                };
            assert(heads_data(all[h]));
            assert forall|j: int| h < j < all.len() implies !ends_data(#[trigger] all[j]) by {
                if j < a.len() {
                    assert(all[j] == a[j]);
                }
            }
        }
        if in_data(all) {
            let h = choose|h: int|
                {
                    &&& 0 <= h < all.len()
                    &&& heads_data(#[trigger] all[h])
                    &&& forall|j: int| h < j < all.len() ==> !ends_data(#[trigger] all[j])
                };
            assert(h < a.len());
            assert(heads_data(a[h]));
            assert(!ends_data(all[a.len() as int]));
            assert forall|j: int| h < j < a.len() implies !ends_data(#[trigger] a[j]) by {
                assert(all[j] == a[j]);
            }
        }
    }
}

proof fn lemma_awaits_push(a: Seq<Seq<char>>, x: Seq<char>)
    ensures
        awaits_data(a.push(x)) == (tells_fail(x) || (!heads_data(x) && awaits_data(a))),
{
    let all = a.push(x);
    if tells_fail(x) {
        assert(tells_fail(all[a.len() as int]));
        assert(awaits_data(all));
    } else {
        if awaits_data(a) && !heads_data(x) {
            let f = choose|f: int|
                {
                    &&& 0 <= f < a.len()
                    &&& tells_fail(#[trigger] a[f])
                    &&& forall|j: int|
                        f < j < a.len() ==> !tells_fail(#[trigger] a[j]) && !heads_data(a[j])
                };
            assert(tells_fail(all[f]));
            assert forall|j: int| f < j < all.len() implies !tells_fail(#[trigger] all[j])
                && !heads_data(all[j]) by {
                if j < a.len() {
                    assert(all[j] == a[j]);
                }
            }
        }
        if awaits_data(all) {
            let f = choose|f: int|
                {
                    &&& 0 <= f < all.len()
                    &&& tells_fail(#[trigger] all[f])
                    &&& forall|j: int|
                        f < j < all.len() ==> !tells_fail(#[trigger] all[j]) && !heads_data(all[j])
                };
            assert(f < a.len());
            assert(tells_fail(a[f]));
            assert(!heads_data(all[a.len() as int]));
            assert forall|j: int| f < j < a.len() implies !tells_fail(#[trigger] a[j])
                && !heads_data(a[j]) by {
                assert(all[j] == a[j]);
            }
        }
    }
}

proof fn lemma_bare_part(a: Seq<Seq<char>>, x: Seq<char>)
    requires
        is_bare(a.push(x)),
    ensures
        is_bare(a),
        !begins_warning(x),
        !begins_with(x, '╭'),
{
    let all = a.push(x);
    assert forall|i: int| 0 <= i < a.len() implies !begins_warning(#[trigger] a[i])
        && !begins_with(a[i], '╭') by {
        assert(all[i] == a[i]);
    }
    assert(all[a.len() as int] == x);
}

/// What is awaited follows from the lines alone.
proof fn lemma_awaited(a: Seq<Seq<char>>)
    requires
        is_bare(a),
    ensures
        (test_output::scanned(a).data.len() > 0) == in_data(a),
        !in_data(a) ==> (test_output::scanned(a).pending is Some) == awaits_data(a),
    decreases a.len(),
{
    if a.len() > 0 {
        let rest = a.drop_last();
        let x = a.last();
        assert(a =~= rest.push(x));
        lemma_bare_part(rest, x);
        lemma_awaited(rest);
        lemma_bare(rest);
        lemma_scan_push(rest, x);
        lemma_kinds(x);
        lemma_first_words(x);
        lemma_in_data_push(rest, x);
        lemma_awaits_push(rest, x);
        if in_data(rest) && awaits_data(rest) {
            lemma_not_both(rest);
        }
    } else {
        assert(!in_data(a));
        assert(!awaits_data(a));
    }
}

proof fn lemma_not_both(a: Seq<Seq<char>>)
    requires
        in_data(a),
    ensures
        !awaits_data(a),
{
    if awaits_data(a) {
        let h = choose|h: int|
            {
                &&& 0 <= h < a.len()
                &&& heads_data(#[trigger] a[h])
                &&& forall|j: int| h < j < a.len() ==> !ends_data(#[trigger] a[j])
            };
        let f = choose|f: int|
            {
                &&& 0 <= f < a.len()
                &&& tells_fail(#[trigger] a[f])
                &&& forall|j: int|
                    f < j < a.len() ==> !tells_fail(#[trigger] a[j]) && !heads_data(a[j])
            };
        lemma_first_words(a[h]);
        lemma_first_words(a[f]);
        if f < h {
            assert(!heads_data(a[h]));
        } else if h < f {
            assert(!ends_data(a[f]));
        }
    }
}

/// What was read before a line of an output without warnings and tables.
proof fn lemma_step(a: Seq<Seq<char>>, x: Seq<char>)
    requires
        is_bare(a.push(x)),
    ensures
        ({
            let m = test_output::scanned(a);
            &&& !m.in_warning
            &&& m.table.len() == 0
            &&& (m.data.len() > 0) == in_data(a)
            &&& !in_data(a) ==> (m.pending is Some) == awaits_data(a)
            &&& tells_compiling(x) ==> test_output::scanned(a.push(x)) == m
            &&& !tells_compiling(x) ==> test_output::scanned(a.push(x)) == m.with_plain(x)
        }),
{
    lemma_bare_part(a, x);
    lemma_bare(a);
    lemma_awaited(a);
    lemma_scan_push(a, x);
    lemma_kinds(x);
    let m = test_output::scanned(a);
    assert(RunModel { in_warning: false, ..m } == m);
}

/// Reading on depends only on what was read.
proof fn lemma_scan_after(a: Seq<Seq<char>>, b: Seq<Seq<char>>, rest: Seq<Seq<char>>)
    requires
        test_output::scanned(a) == test_output::scanned(b),
    ensures
        test_output::scanned(a + rest) == test_output::scanned(b + rest),
    decreases rest.len(),
{
    if rest.len() == 0 {
        assert(a + rest =~= a);
        assert(b + rest =~= b);
    } else {
        lemma_scan_after(a, b, rest.drop_last());
        assert(a + rest =~= (a + rest.drop_last()).push(rest.last()));
        assert(b + rest =~= (b + rest.drop_last()).push(rest.last()));
        lemma_scan_push(a + rest.drop_last(), rest.last());
        lemma_scan_push(b + rest.drop_last(), rest.last());
    }
}

/// Lines that tell of compiling, of tests that start or were ignored, or give figures that stand
/// elsewhere, change nothing, wherever they stand after lines without warnings and tables.
pub proof fn law_noise_changes_nothing(a: Seq<Seq<char>>, x: Seq<char>, rest: Seq<Seq<char>>)
    requires
        is_bare(a),
        tells_compiling(x) || tells_nothing(x),
    ensures
        model_of(a.push(x) + rest) == model_of(a + rest),
{
    lemma_kinds(x);
    if tells_nothing(x) {
        lemma_no_warning(x);
    } else {
        lemma_compiling_no_warning(x);
    }
    lemma_bare_push(a, x);
    lemma_step(a, x);
    lemma_scan_after(a.push(x), a, rest);
}

proof fn lemma_compiling_no_warning(line: Seq<char>)
    requires
        tells_compiling(line),
    ensures
        !begins_warning(line),
        !begins_with(line, '╭'),
{
    reveal_strlit("warn[");
    reveal_strlit("warn: ");
    lemma_first_compiling(line);
    let t = text::trimmed(line);
    let s = text::trimmed_start(line);
    lemma_trimmed_first(s);
    if t.len() > 0 {
        assert(t[0] == s[0]);
    }
    if "warn["@.is_prefix_of(line) {
        lemma_prefix("warn["@, line, 0);
        assert(s == line);
    }
    if "warn: "@.is_prefix_of(line) {
        lemma_prefix("warn: "@, line, 0);
        assert(s == line);
    }
}

/// Whether a line that follows the start of a compiler warning belongs to it.
pub open spec fn is_detail(line: Seq<char>) -> bool {
    ||| is_indented(line)
    ||| begins_with(line, '=')
    ||| begins_with(line, '|')
    ||| begins_with(line, '^')
    ||| begins_with(line, '-')
}

proof fn lemma_detail(line: Seq<char>)
    ensures
        test_output::warning_detail(line) == is_detail(line),
{
    reveal_strlit("-->");
    let t = text::trimmed(line);
    if "-->"@.is_prefix_of(t) {
        lemma_prefix("-->"@, t, 0);
    }
}

proof fn lemma_details_read(a: Seq<Seq<char>>, w: Seq<char>, details: Seq<Seq<char>>)
    requires
        begins_warning(w),
        forall|i: int|
            0 <= i < details.len() ==> is_detail(#[trigger] details[i]) && !text::blank(details[i])
                && !tells_compiling(details[i]) && !begins_warning(details[i]),
    ensures
        test_output::scanned(a.push(w) + details) == (RunModel {
            in_warning: true,
            ..test_output::scanned(a)
        }),
    decreases details.len(),
{
    if details.len() == 0 {
        assert(a.push(w) + details =~= a.push(w));
        lemma_scan_push(a, w);
        lemma_kinds(w);
        if tells_compiling(w) {
            lemma_compiling_no_warning(w);
        }
    } else {
        let rest = details.drop_last();
        let x = details.last();
        assert forall|i: int| 0 <= i < rest.len() implies is_detail(#[trigger] rest[i])
            && !text::blank(rest[i]) && !tells_compiling(rest[i]) && !begins_warning(rest[i]) by {
            assert(rest[i] == details[i]);
        }
        lemma_details_read(a, w, rest);
        assert(a.push(w) + details =~= (a.push(w) + rest).push(x));
        lemma_scan_push(a.push(w) + rest, x);
        assert(is_detail(details[details.len() - 1]));
        lemma_kinds(x);
        lemma_detail(x);
    }
}

/// A compiler warning, its lines and the blank line that ends it change nothing after lines
/// without warnings and tables. A line that cannot belong to it ends it too, and counts as if the
/// warning were not there.
pub proof fn law_warning_changes_nothing(
    a: Seq<Seq<char>>,
    w: Seq<char>,
    details: Seq<Seq<char>>,
    x: Seq<char>,
    rest: Seq<Seq<char>>,
)
    requires
        is_bare(a),
        begins_warning(w),
        forall|i: int|
            0 <= i < details.len() ==> is_detail(#[trigger] details[i]) && !text::blank(details[i])
                && !tells_compiling(details[i]) && !begins_warning(details[i]),
        text::blank(x) || !is_detail(x),
    ensures
        text::blank(x) ==> model_of((a.push(w) + details).push(x) + rest) == model_of(a + rest),
        !text::blank(x) ==> model_of((a.push(w) + details).push(x) + rest) == model_of(
            a.push(x) + rest,
        ),
{
    let lines = a.push(w) + details;
    lemma_bare(a);
    lemma_details_read(a, w, details);
    lemma_scan_push(lines, x);
    lemma_scan_push(a, x);
    lemma_kinds(x);
    lemma_detail(x);
    let m = test_output::scanned(a);
    assert(RunModel { in_warning: false, ..m } == m);
    if text::blank(x) {
        lemma_blank_no_warning(x);
        lemma_scan_after(lines.push(x), a, rest);
    } else {
        lemma_scan_after(lines.push(x), a.push(x), rest);
    }
}

/// A line of what a failed test left is added to the last failure; nothing else changes.
pub proof fn law_data_line_added(a: Seq<Seq<char>>, x: Seq<char>)
    requires
        is_bare(a),
        in_data(a),
        is_ordinary(x),
        !text::blank(x),
    ensures
        ({
            let before = model_of(a);
            let n = before.failures.len();
            &&& n > 0
            &&& model_of(a.push(x)) == (RunModel {
                failures: before.failures.update(n - 1, before.failures[n - 1] + "\n"@ + x),
                ..before
            })
        }),
{
    lemma_bare_push(a, x);
    lemma_step(a, x);
    lemma_kinds(x);
    let m = test_output::scanned(a);
    let r = test_output::scanned(a.push(x));
    assert(r == RunModel { data: m.data.push(x), ..m });
    let block = match m.pending {
        None => m.data,
        Some(fail) => seq![fail] + m.data,
    };
    let next = match m.pending {
        None => r.data,
        Some(fail) => seq![fail] + r.data,
    };
    assert(next =~= block.push(x));
    containment::lemma_joined_push(block, x, "\n"@);
    let f = m.failures.push(text::joined(block, "\n"@));
    assert(f.update(f.len() - 1, f[f.len() - 1] + "\n"@ + x) =~= m.failures.push(
        text::joined(next, "\n"@),
    ));
}

/// The heading of what a failed test left is added to the last failure, where that test has left
/// nothing yet, and is a failure of its own otherwise; nothing else changes.
pub proof fn law_heading_added(a: Seq<Seq<char>>, x: Seq<char>)
    requires
        is_bare(a),
        !in_data(a),
        heads_data(x),
    ensures
        ({
            let before = model_of(a);
            let n = before.failures.len();
            model_of(a.push(x)) == (if awaits_data(a) {
                RunModel {
                    failures: before.failures.update(n - 1, before.failures[n - 1] + "\n"@ + x),
                    ..before
                }
            } else {
                RunModel { failures: before.failures.push(x), ..before }
            })
        }),
{
    lemma_kinds(x);
    lemma_no_warning(x);
    lemma_bare_push(a, x);
    lemma_step(a, x);
    let m = test_output::scanned(a);
    let r = test_output::scanned(a.push(x));
    assert(r == RunModel { data: m.data.push(x), ..m });
    assert(r.data =~= seq![x]);
    match m.pending {
        None => {
            assert(text::joined(seq![x], "\n"@) == x);
        },
        Some(fail) => {
            let f = m.failures.push(fail);
            containment::lemma_joined_push(seq![fail], x, "\n"@);
            assert(seq![fail] + r.data =~= seq![fail].push(x));
            assert(f.update(f.len() - 1, f[f.len() - 1] + "\n"@ + x) =~= m.failures.push(
                fail + "\n"@ + x,
            ));
        },
    }
}

/// A line that tells that a test passed ends what a failed test left. It adds to the details what
/// its figures compress to, and changes nothing else.
pub proof fn law_pass_added(a: Seq<Seq<char>>, x: Seq<char>)
    requires
        is_bare(a),
        tells_pass(x),
    ensures
        !in_data(a.push(x)),
        ({
            let before = model_of(a);
            model_of(a.push(x)) == (match gas::pass_gas(text::trimmed(x)) {
                None => before,
                Some(line) => RunModel { details: before.details.push(line), ..before },
            })
        }),
{
    lemma_kinds(x);
    lemma_first_words(x);
    lemma_no_warning(x);
    lemma_bare_push(a, x);
    lemma_step(a, x);
    lemma_in_data_push(a, x);
}

/// A line that gives the resources that a test used adds to the details what it compresses to,
/// and changes nothing else.
pub proof fn law_resource_added(a: Seq<Seq<char>>, x: Seq<char>)
    requires
        is_bare(a),
        tells_resource(x),
    ensures
        ({
            let before = model_of(a);
            model_of(a.push(x)) == (match gas::resource_text(x) {
                None => before,
                Some(line) => RunModel { details: before.details.push(line), ..before },
            })
        }),
{
    lemma_kinds(x);
    lemma_no_warning(x);
    lemma_bare_push(a, x);
    lemma_step(a, x);
}

/// A line that tells that the tests of a package were collected adds a package, and changes
/// nothing else.
pub proof fn law_collected_added(a: Seq<Seq<char>>, x: Seq<char>)
    requires
        is_bare(a),
        tells_collected(x),
    ensures
        model_of(a.push(x)) == (RunModel {
            packages: model_of(a).packages + 1,
            ..model_of(a)
        }),
{
    lemma_kinds(x);
    lemma_no_warning(x);
    lemma_bare_push(a, x);
    lemma_step(a, x);
}

/// A summary line is kept, where it is no part of what a failed test left: that of a package with
/// those before it, that of the whole run in place of one before it. Nothing else changes.
pub proof fn law_summary_added(a: Seq<Seq<char>>, x: Seq<char>)
    requires
        is_bare(a),
        !in_data(a),
        sums_up_run(x) || sums_up_package(x),
    ensures
        ({
            let before = model_of(a);
            model_of(a.push(x)) == (if sums_up_run(x) {
                RunModel { global_summary: Some(x), ..before }
            } else {
                RunModel { package_summaries: before.package_summaries.push(x), ..before }
            })
        }),
{
    lemma_kinds(x);
    lemma_no_warning(x);
    lemma_bare_push(a, x);
    lemma_step(a, x);
}

/// A blank line ends what a failed test left, and changes nothing else. Any other ordinary line
/// changes nothing, where it is no part of that.
pub proof fn law_other_changes_nothing(a: Seq<Seq<char>>, x: Seq<char>)
    requires
        is_bare(a),
        is_ordinary(x),
        text::blank(x) || (!in_data(a) && !sums_up_run(x) && !sums_up_package(x)),
    ensures
        !in_data(a.push(x)),
        model_of(a.push(x)) == model_of(a),
{
    lemma_kinds(x);
    lemma_bare_push(a, x);
    lemma_step(a, x);
    lemma_in_data_push(a, x);
    if text::blank(x) {
        lemma_blank_no_warning(x);
    }
}

} // verus!
