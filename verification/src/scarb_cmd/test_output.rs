//! The output of `scarb test`.
use crate::counts;
use crate::number;
use crate::pattern;
use crate::scarb_cmd::noise;
use crate::scarb_cmd::noise::Stage;
use crate::strings;
use crate::text;
use vstd::prelude::*;
use vstd::string::*;

verus! {

/// How many failures are shown in full.
pub const SHOWN_FAILURES: usize = 10;

/// How many lines stand for an output in which nothing else was found.
pub const TAIL_LINES: usize = 5;

/// The line that sums up a suite whose tests have run.
pub const SUMMARY_PATTERN: &'static str = r"test result: (\w+)\.\s+(\d+) passed;\s+(\d+) failed;\s+(\d+) ignored;\s+(\d+) filtered out";

/// Sums of test counts.
pub struct Totals {
    pub passed: nat,
    pub failed: nat,
    pub ignored: nat,
    pub filtered_out: nat,
    pub suites: nat,
}

impl Totals {
    /// Nothing counted.
    pub open spec fn zero() -> Totals {
        Totals { passed: 0, failed: 0, ignored: 0, filtered_out: 0, suites: 0 }
    }

    /// Each count added to its counterpart.
    pub open spec fn plus(self, other: Totals) -> Totals {
        Totals {
            passed: self.passed + other.passed,
            failed: self.failed + other.failed,
            ignored: self.ignored + other.ignored,
            filtered_out: self.filtered_out + other.filtered_out,
            suites: self.suites + other.suites,
        }
    }

    /// Whether a `usize` can hold each of the counts.
    pub open spec fn fits(self) -> bool {
        &&& self.passed <= usize::MAX
        &&& self.failed <= usize::MAX
        &&& self.ignored <= usize::MAX
        &&& self.filtered_out <= usize::MAX
        &&& self.suites <= usize::MAX
    }
}

/// Aggregated scarb/Cairo test results.
#[derive(Debug, Default, Clone, Copy, PartialEq, Eq, Structural)]
pub struct AggregatedTestResult {
    pub passed: usize,
    pub failed: usize,
    pub ignored: usize,
    pub filtered_out: usize,
    pub suites: usize,
}

impl View for AggregatedTestResult {
    type V = Totals;

    open spec fn view(&self) -> Totals {
        Totals {
            passed: self.passed as nat,
            failed: self.failed as nat,
            ignored: self.ignored as nat,
            filtered_out: self.filtered_out as nat,
            suites: self.suites as nat,
        }
    }
}

/// The result that the groups of a summary line's match stand for: one suite, if its status is
/// `ok` and a `usize` can hold each count.
pub open spec fn suite_result(groups: Option<Seq<Option<Seq<char>>>>) -> Option<
    AggregatedTestResult,
> {
    match groups {
        None => None,
        Some(g) => if pattern::group_text(g, 1) != Some("ok"@) {
            None
        } else {
            match (
                pattern::group_number(g, 2),
                pattern::group_number(g, 3),
                pattern::group_number(g, 4),
                pattern::group_number(g, 5),
            ) {
                (Some(passed), Some(failed), Some(ignored), Some(filtered_out)) => Some(
                    AggregatedTestResult { passed, failed, ignored, filtered_out, suites: 1 },
                ),
                _ => None,
            }
        },
    }
}

/// The result that a summary line stands for.
pub open spec fn line_result(line: Seq<char>) -> Option<AggregatedTestResult> {
    suite_result(pattern::regex_captures(SUMMARY_PATTERN@, line))
}

/// The compact line for results that all passed.
pub open spec fn compact_line(t: Totals) -> Seq<char> {
    "✓ scarb test: "@ + counts::counts_text(t.passed, t.ignored, t.filtered_out) + " ("@
        + counts::quantity(t.suites, " suite"@, " suites"@) + ")"@
}

impl AggregatedTestResult {
    /// Parses a scarb test result summary line.
    /// Format: "test result: ok. N passed; N failed; N ignored; N filtered out;"
    pub fn parse_line(line: &str) -> (r: Option<AggregatedTestResult>)
        ensures
            r == line_result(line@),
    {
        let groups = pattern::captures(SUMMARY_PATTERN, line);
        AggregatedTestResult::from_captures(&groups)
    }

    /// The result that the groups of a summary line's match stand for.
    pub fn from_captures(groups: &Option<Vec<Option<String>>>) -> (r: Option<
        AggregatedTestResult,
    >)
        ensures
            r == suite_result(pattern::group_views(*groups)),
    {
        match groups {
            None => None,
            Some(g) => {
                if !pattern::group_is(g, 1, "ok") {
                    return None;
                }
                match (
                    pattern::group_count(g, 2),
                    pattern::group_count(g, 3),
                    pattern::group_count(g, 4),
                    pattern::group_count(g, 5),
                ) {
                    (Some(passed), Some(failed), Some(ignored), Some(filtered_out)) => Some(
                        AggregatedTestResult { passed, failed, ignored, filtered_out, suites: 1 },
                    ),
                    _ => None,
                }
            },
        }
    }

    /// Adds the counts of `other`.
    pub fn merge(&mut self, other: &AggregatedTestResult)
        requires
            old(self)@.plus(other@).fits(),
        ensures
            final(self)@ == old(self)@.plus(other@),
    {
        self.passed = self.passed + other.passed;
        self.failed = self.failed + other.failed;
        self.ignored = self.ignored + other.ignored;
        self.filtered_out = self.filtered_out + other.filtered_out;
        self.suites = self.suites + other.suites;
    }

    /// The compact line for results that all passed.
    pub fn format_compact(&self) -> (r: String)
        ensures
            r@ == compact_line(self@),
    {
        let mut out: String = "✓ scarb test: ".to_owned();
        counts::append_counts(&mut out, self.passed, self.ignored, self.filtered_out);
        out.append(" (");
        counts::append_quantity(&mut out, self.suites, " suite", " suites");
        out.append(")");
        out
    }
}

/// What a line of the output is.
#[derive(Debug, Clone, Copy, PartialEq, Eq, Structural)]
pub enum TestLine {
    /// Compilation, fetching, progress, or a test that passed.
    Dropped,
    /// A warning of scarb about itself begins.
    Noise,
    /// The heading of a list of failures.
    Failures,
    /// Anything else.
    Other,
}

/// Whether a line tells of compiling, fetching or finishing.
pub open spec fn compile_progress(line: Seq<char>) -> bool {
    let start = text::trimmed_start(line);
    ||| "Compiling"@.is_prefix_of(start)
    ||| "Checking"@.is_prefix_of(start)
    ||| "Blocking waiting for file lock"@.is_prefix_of(start)
    ||| "Downloading"@.is_prefix_of(start)
    ||| "Downloaded"@.is_prefix_of(start)
    ||| "Locking"@.is_prefix_of(start)
    ||| "Updating"@.is_prefix_of(start)
    ||| "Finished"@.is_prefix_of(start)
}

/// Whether a line tells that a test passed.
pub open spec fn test_passed(line: Seq<char>) -> bool {
    "test "@.is_prefix_of(line) && "... ok"@.is_suffix_of(line)
}

/// Whether a line tells that tests start, or that a test passed.
pub open spec fn test_progress(line: Seq<char>) -> bool {
    "running "@.is_prefix_of(line) || test_passed(line)
}

/// What a line of the output is; the first kind that fits.
pub open spec fn line_kind(line: Seq<char>) -> TestLine {
    if compile_progress(line) {
        TestLine::Dropped
    } else if noise::noise_warn(line) {
        TestLine::Noise
    } else if test_progress(line) {
        TestLine::Dropped
    } else if line == "failures:"@ {
        TestLine::Failures
    } else {
        TestLine::Other
    }
}

/// What has been read of a test run's output.
#[verifier::ext_equal]
pub struct TestModel {
    /// The failures that are complete.
    pub failures: Seq<Seq<char>>,
    /// The summary lines.
    pub summaries: Seq<Seq<char>>,
    /// Whether the lines that come next belong to a list of failures.
    pub in_failures: bool,
    /// The lines of the failure that is not complete.
    pub current: Seq<Seq<char>>,
}

impl TestModel {
    /// Nothing read yet.
    pub open spec fn empty() -> TestModel {
        TestModel { failures: seq![], summaries: seq![], in_failures: false, current: seq![] }
    }

    /// The failure whose lines were read, if there is one, is complete.
    pub open spec fn closed(self) -> TestModel {
        if self.current.len() == 0 {
            self
        } else {
            TestModel {
                failures: self.failures.push(text::joined(self.current, "\n"@)),
                current: seq![],
                ..self
            }
        }
    }

    /// A line of no other kind: a summary, which ends a list of failures; or, in such a list,
    /// a line of a failure, which a blank line ends unless the line is indented.
    pub open spec fn taken(self, line: Seq<char>) -> TestModel {
        if "test result:"@.is_prefix_of(line) {
            TestModel { summaries: self.summaries.push(line), in_failures: false, ..self }
        } else if !self.in_failures {
            self
        } else if "    "@.is_prefix_of(line) || !text::blank(line) {
            TestModel { current: self.current.push(line), ..self }
        } else {
            self.closed()
        }
    }
}

/// `m` once the lines from `i` on are read too.
pub open spec fn scanned(lines: Seq<Seq<char>>, i: int, m: TestModel) -> TestModel
    decreases lines.len() - i,
    via scanned_decreases
{
    if i >= lines.len() {
        m
    } else {
        match line_kind(lines[i]) {
            TestLine::Dropped => scanned(lines, i + 1, m),
            TestLine::Noise => scanned(lines, noise::noise_end(Stage::Test, lines, i + 1), m),
            TestLine::Failures => scanned(lines, i + 1, TestModel { in_failures: true, ..m }),
            TestLine::Other => scanned(lines, i + 1, m.taken(lines[i])),
        }
    }
}

#[via_fn]
proof fn scanned_decreases(lines: Seq<Seq<char>>, i: int, m: TestModel) {
    if i < lines.len() {
        noise::lemma_noise_end(Stage::Test, lines, i + 1);
    }
}

/// What a whole output holds.
pub open spec fn test_model(output: Seq<char>) -> TestModel {
    scanned(text::lines_of(output), 0, TestModel::empty()).closed()
}

/// The results that the summary lines stand for.
pub open spec fn summary_results(m: TestModel) -> Seq<Option<AggregatedTestResult>> {
    Seq::new(m.summaries.len(), |i: int| line_result(m.summaries[i]))
}

/// Whether every summary line stands for a result.
pub open spec fn all_results(results: Seq<Option<AggregatedTestResult>>) -> bool {
    forall|i: int| 0 <= i < results.len() ==> (#[trigger] results[i]) is Some
}

/// The sums of the results' counts.
pub open spec fn totals(results: Seq<Option<AggregatedTestResult>>) -> Totals
    decreases results.len(),
{
    if results.len() == 0 {
        Totals::zero()
    } else {
        totals(results.drop_last()).plus(results.last()->0@)
    }
}

/// Whether the totals, where a view needs them, can be held.
pub open spec fn countable(m: TestModel, results: Seq<Option<AggregatedTestResult>>) -> bool {
    m.failures.len() == 0 && all_results(results) ==> totals(results).fits()
}

/// The first `k` failures, each with its number and on lines of its own.
pub open spec fn numbered(failures: Seq<Seq<char>>, k: int) -> Seq<char>
    decreases k,
{
    if k <= 0 {
        seq![]
    } else {
        numbered(failures, k - 1) + number::decimal(k as nat) + ". "@ + failures[k - 1] + "\n"@
    }
}

/// The failures: those that are shown in full, and how many there are beyond them.
pub open spec fn failure_list(failures: Seq<Seq<char>>) -> Seq<char> {
    let head = "FAILURES ("@ + number::decimal(failures.len()) + "):\n"@
        + "═══════════════════════════════════════\n"@;
    if failures.len() > SHOWN_FAILURES {
        head + numbered(failures, SHOWN_FAILURES as int) + "\n... +"@ + number::decimal(
            (failures.len() - SHOWN_FAILURES) as nat,
        ) + " more failures\n"@ + "\n"@
    } else {
        head + numbered(failures, failures.len() as int) + "\n"@
    }
}

/// Whether a line tells of compiling a package, or that compiling is finished.
pub open spec fn compilation(line: Seq<char>) -> bool {
    let start = text::trimmed_start(line);
    ||| "Compiling"@.is_prefix_of(start)
    ||| "Checking"@.is_prefix_of(start)
    ||| "Finished"@.is_prefix_of(start)
}

/// Whether a line tells that something is awaited.
pub open spec fn waiting(line: Seq<char>) -> bool {
    "Blocking"@.is_prefix_of(text::trimmed_start(line))
}

/// Whether a line may stand for an output in which nothing else was found: it is not blank, and
/// tells neither of compiling or waiting nor of a test that passed.
pub open spec fn meaningful(line: Seq<char>) -> bool {
    &&& !text::blank(line)
    &&& !compilation(line)
    &&& !waiting(line)
    &&& !test_passed(line)
}

/// The lines from `i` on that may stand for the output and are no part of a warning of scarb
/// about itself.
pub open spec fn kept_lines(lines: Seq<Seq<char>>, i: int) -> Seq<Seq<char>>
    decreases lines.len() - i,
    via kept_lines_decreases
{
    if i >= lines.len() {
        seq![]
    } else if noise::noise_warn(lines[i]) {
        kept_lines(lines, noise::noise_end(Stage::Test, lines, i + 1))
    } else if meaningful(lines[i]) {
        seq![lines[i]] + kept_lines(lines, i + 1)
    } else {
        kept_lines(lines, i + 1)
    }
}

#[via_fn]
proof fn kept_lines_decreases(lines: Seq<Seq<char>>, i: int) {
    if i < lines.len() {
        noise::lemma_noise_end(Stage::Test, lines, i + 1);
    }
}

/// The last lines that may stand for the output.
pub open spec fn tail_lines(lines: Seq<Seq<char>>) -> Seq<Seq<char>> {
    let kept = kept_lines(lines, 0);
    if kept.len() > TAIL_LINES {
        kept.skip(kept.len() - TAIL_LINES)
    } else {
        kept
    }
}

/// The compact view of a test run, given the results that its summary lines stand for.
pub open spec fn test_report(
    output: Seq<char>,
    m: TestModel,
    results: Seq<Option<AggregatedTestResult>>,
) -> Seq<char> {
    if m.failures.len() > 0 {
        text::trimmed(failure_list(m.failures) + text::each_ended(m.summaries, "\n"@))
    } else if m.summaries.len() > 0 {
        if all_results(results) {
            compact_line(totals(results))
        } else {
            text::trimmed(
                text::each_ended(m.summaries.map_values(|s: Seq<char>| "✓ "@ + s), "\n"@),
            )
        }
    } else {
        text::trimmed(text::each_ended(tail_lines(text::lines_of(output)), "\n"@))
    }
}

/// What has been read of a test run's output.
#[derive(Debug)]
pub struct TestScan {
    pub failures: Vec<String>,
    pub summaries: Vec<String>,
    pub in_failures: bool,
    pub current: Vec<String>,
}

impl View for TestScan {
    type V = TestModel;

    open spec fn view(&self) -> TestModel {
        TestModel {
            failures: text::views(self.failures@),
            summaries: text::views(self.summaries@),
            in_failures: self.in_failures,
            current: text::views(self.current@),
        }
    }
}

impl TestScan {
    /// Nothing read yet.
    fn new() -> (r: TestScan)
        ensures
            r@ == TestModel::empty(),
    {
        TestScan {
            failures: Vec::new(),
            summaries: Vec::new(),
            in_failures: false,
            current: Vec::new(),
        }
    }

    /// Completes the failure whose lines were read, if there is one.
    fn close(&mut self)
        ensures
            final(self)@ == old(self)@.closed(),
    {
        let ghost m = self@;
        if self.current.len() > 0 {
            let whole = strings::join(self.current.as_slice(), "\n");
            let ghost block = whole@;
            self.failures.push(whole);
            assert(text::views(self.failures@) == m.failures.push(block));
            self.current = Vec::new();
            assert(text::views(self.current@) == Seq::<Seq<char>>::empty());
        }
    }

    /// Takes a line of no other kind.
    fn take_line(&mut self, line: &str)
        ensures
            final(self)@ == old(self)@.taken(line@),
    {
        let ghost m = self@;
        if strings::starts_with(line, "test result:") {
            self.summaries.push(line.to_owned());
            assert(text::views(self.summaries@) == m.summaries.push(line@));
            self.in_failures = false;
        } else if !self.in_failures {
        } else if strings::starts_with(line, "    ") || !strings::is_blank(line) {
            self.current.push(line.to_owned());
            assert(text::views(self.current@) == m.current.push(line@));
        } else {
            self.close();
        }
    }

    /// The results that the summary lines stand for.
    pub fn parse_summaries(&self) -> (r: Vec<Option<AggregatedTestResult>>)
        ensures
            r@ == summary_results(self@),
    {
        let mut out: Vec<Option<AggregatedTestResult>> = Vec::new();
        let mut i: usize = 0;
        while i < self.summaries.len()
            invariant
                i <= self.summaries.len(),
                out@ == summary_results(self@).take(i as int),
            decreases self.summaries.len() - i,
        {
            out.push(AggregatedTestResult::parse_line(self.summaries[i].as_str()));
            i = i + 1;
            assert(out@ == summary_results(self@).take(i as int));
        }
        assert(summary_results(self@).take(i as int) == summary_results(self@));
        out
    }
}

/// What a line of the output is.
pub fn classify(line: &str) -> (r: TestLine)
    ensures
        r == line_kind(line@),
{
    let start = strings::trim_start(line);
    if strings::starts_with(start, "Compiling") || strings::starts_with(start, "Checking")
        || strings::starts_with(start, "Blocking waiting for file lock") || strings::starts_with(
        start,
        "Downloading",
    ) || strings::starts_with(start, "Downloaded") || strings::starts_with(start, "Locking")
        || strings::starts_with(start, "Updating") || strings::starts_with(start, "Finished") {
        TestLine::Dropped
    } else if noise::is_noise_warn(line) {
        TestLine::Noise
    } else if strings::starts_with(line, "running ") || (strings::starts_with(line, "test ")
        && strings::ends_with(line, "... ok")) {
        TestLine::Dropped
    } else if strings::same_text(line, "failures:") {
        TestLine::Failures
    } else {
        TestLine::Other
    }
}

/// Reads a whole output.
pub fn scan_test(output: &str) -> (r: TestScan)
    ensures
        r@ == test_model(output@),
{
    let lines = strings::lines(output);
    let ghost ls = text::lines_of(output@);
    let mut scan = TestScan::new();
    let mut i: usize = 0;
    while i < lines.len()
        invariant
            ls == text::views(lines@),
            i <= lines.len(),
            scanned(ls, i as int, scan@) == scanned(ls, 0, TestModel::empty()),
        decreases lines.len() - i,
    {
        let line = lines[i].as_str();
        assert(ls[i as int] == line@);
        match classify(line) {
            TestLine::Dropped => {
                i = i + 1;
            },
            TestLine::Noise => {
                i = noise::skip_noise(Stage::Test, &lines, i + 1);
            },
            TestLine::Failures => {
                scan.in_failures = true;
                i = i + 1;
            },
            TestLine::Other => {
                scan.take_line(line);
                i = i + 1;
            },
        }
    }
    scan.close();
    scan
}

/// Adding the counts of fewer results gives no larger sums.
proof fn lemma_totals_grow(results: Seq<Option<AggregatedTestResult>>, k: int)
    requires
        0 <= k <= results.len(),
        totals(results).fits(),
    ensures
        totals(results.take(k)).fits(),
    decreases results.len() - k,
{
    if k == results.len() {
        assert(results.take(k) == results);
    } else {
        lemma_totals_grow(results.drop_last(), k);
        assert(results.drop_last().take(k) == results.take(k));
    }
}

/// Whether every summary line stands for a result.
fn have_all(results: &Vec<Option<AggregatedTestResult>>) -> (r: bool)
    ensures
        r == all_results(results@),
{
    let mut i: usize = 0;
    while i < results.len()
        invariant
            i <= results.len(),
            forall|k: int| 0 <= k < i ==> (#[trigger] results@[k]) is Some,
        decreases results.len() - i,
    {
        if results[i].is_none() {
            assert(results@[i as int] is None);
            return false;
        }
        i = i + 1;
    }
    true
}

/// The sums of the results' counts, if each can be held.
fn add_up(results: &Vec<Option<AggregatedTestResult>>) -> (r: Option<AggregatedTestResult>)
    requires
        all_results(results@),
    ensures
        match r {
            Some(sum) => sum@ == totals(results@) && totals(results@).fits(),
            None => !totals(results@).fits(),
        },
{
    let mut sum = AggregatedTestResult {
        passed: 0,
        failed: 0,
        ignored: 0,
        filtered_out: 0,
        suites: 0,
    };
    let mut i: usize = 0;
    while i < results.len()
        invariant
            all_results(results@),
            i <= results.len(),
            sum@ == totals(results@.take(i as int)),
        decreases results.len() - i,
    {
        let ghost next = results@.take(i + 1);
        proof {
            assert(next.drop_last() == results@.take(i as int));
            assert(results@[i as int] is Some);
            if totals(results@).fits() {
                lemma_totals_grow(results@, i + 1);
            }
        }
        if let Some(result) = &results[i] {
            if sum.passed.checked_add(result.passed).is_none() || sum.failed.checked_add(
                result.failed,
            ).is_none() || sum.ignored.checked_add(result.ignored).is_none()
                || sum.filtered_out.checked_add(result.filtered_out).is_none()
                || sum.suites.checked_add(result.suites).is_none() {
                return None;
            }
            sum.merge(result);
        }
        i = i + 1;
    }
    assert(results@.take(i as int) == results@);
    Some(sum)
}

/// Appends the failures.
fn append_failures(out: &mut String, failures: &Vec<String>)
    ensures
        final(out)@ == old(out)@ + failure_list(text::views(failures@)),
{
    let ghost fs = text::views(failures@);
    let ghost start = out@;
    out.append("FAILURES (");
    number::append_decimal(out, failures.len());
    out.append("):\n");
    out.append("═══════════════════════════════════════\n");
    let ghost head = out@;
    let n: usize = if failures.len() > SHOWN_FAILURES {
        SHOWN_FAILURES
    } else {
        failures.len()
    };
    let mut i: usize = 0;
    assert(head + numbered(fs, 0) == head);
    while i < n
        invariant
            fs == text::views(failures@),
            i <= n <= failures.len(),
            out@ == head + numbered(fs, i as int),
        decreases n - i,
    {
        number::append_decimal(out, i + 1);
        out.append(". ");
        out.append(failures[i].as_str());
        out.append("\n");
        i = i + 1;
        assert(out@ == head + numbered(fs, i as int));
    }
    if failures.len() > SHOWN_FAILURES {
        out.append("\n... +");
        number::append_decimal(out, failures.len() - SHOWN_FAILURES);
        out.append(" more failures\n");
    }
    out.append("\n");
    assert(out@ == start + failure_list(fs));
}

/// Whether a line may stand for an output in which nothing else was found.
fn is_meaningful(line: &str) -> (r: bool)
    ensures
        r == meaningful(line@),
{
    let start = strings::trim_start(line);
    !strings::is_blank(line) && !strings::starts_with(start, "Compiling") && !strings::starts_with(
        start,
        "Checking",
    ) && !strings::starts_with(start, "Finished") && !strings::starts_with(start, "Blocking")
        && !(strings::starts_with(line, "test ") && strings::ends_with(line, "... ok"))
}

/// The last lines that may stand for the output.
fn tail_of(output: &str) -> (r: Vec<String>)
    ensures
        text::views(r@) == tail_lines(text::lines_of(output@)),
{
    let lines = strings::lines(output);
    let ghost ls = text::lines_of(output@);
    let mut kept: Vec<String> = Vec::new();
    let mut i: usize = 0;
    assert(text::views(kept@) + kept_lines(ls, 0) == kept_lines(ls, 0));
    while i < lines.len()
        invariant
            ls == text::views(lines@),
            i <= lines.len(),
            text::views(kept@) + kept_lines(ls, i as int) == kept_lines(ls, 0),
        decreases lines.len() - i,
    {
        let line = lines[i].as_str();
        assert(ls[i as int] == line@);
        if noise::is_noise_warn(line) {
            i = noise::skip_noise(Stage::Test, &lines, i + 1);
        } else {
            if is_meaningful(line) {
                let ghost before = text::views(kept@);
                let ghost rest = kept_lines(ls, i + 1);
                kept.push(line.to_owned());
                assert(text::views(kept@) == before.push(line@));
                assert(before.push(line@) + rest == before + (seq![line@] + rest));
            }
            i = i + 1;
        }
    }
    assert(text::views(kept@) == kept_lines(ls, 0));
    if kept.len() > TAIL_LINES {
        let ghost all = text::views(kept@);
        let tail = kept.split_off(kept.len() - TAIL_LINES);
        assert(text::views(tail@) == all.skip(all.len() - TAIL_LINES));
        tail
    } else {
        kept
    }
}

/// The compact view of a test run, given the results that its summary lines stand for.
pub fn report_test(
    output: &str,
    scan: &TestScan,
    results: &Vec<Option<AggregatedTestResult>>,
) -> (r: String)
    requires
        countable(scan@, results@),
    ensures
        r@ == test_report(output@, scan@, results@),
{
    let mut out: String = String::new();
    if scan.failures.len() > 0 {
        append_failures(&mut out, &scan.failures);
        strings::append_each(&mut out, &scan.summaries, "\n");
        assert(out@ == failure_list(scan@.failures) + text::each_ended(scan@.summaries, "\n"@));
    } else if scan.summaries.len() > 0 {
        if have_all(results) {
            if let Some(sum) = add_up(results) {
                return sum.format_compact();
            }
        }
        let ghost marked = scan@.summaries.map_values(|s: Seq<char>| "✓ "@ + s);
        let mut i: usize = 0;
        while i < scan.summaries.len()
            invariant
                i <= scan.summaries.len(),
                marked == scan@.summaries.map_values(|s: Seq<char>| "✓ "@ + s),
                out@ == text::each_ended(marked.take(i as int), "\n"@),
            decreases scan.summaries.len() - i,
        {
            let ghost before = out@;
            out.append("✓ ");
            out.append(scan.summaries[i].as_str());
            out.append("\n");
            proof {
                assert(marked.take(i + 1).drop_last() == marked.take(i as int));
                assert(marked.take(i + 1).last() == "✓ "@ + scan@.summaries[i as int]);
                assert(out@ == before + ("✓ "@ + scan@.summaries[i as int]) + "\n"@);
            }
            i = i + 1;
        }
        assert(marked.take(i as int) == marked);
    } else {
        let tail = tail_of(output);
        strings::append_each(&mut out, &tail, "\n");
        assert(out@ == text::each_ended(tail_lines(text::lines_of(output@)), "\n"@));
    }
    strings::trim(out.as_str()).to_owned()
}

/// Filters the output of `scarb test`: failures and a compact summary.
///
/// Compilation, infrastructure warnings and tests that passed are dropped. Where there are no
/// failures and every summary line reports success, the view is one line with the totals. Where
/// there are neither failures nor summary lines, the view is the last lines that tell neither of
/// compiling or waiting nor of a test that passed, and are no part of such a warning.
pub fn filter_scarb_test(output: &str) -> (r: String)
    requires
        countable(test_model(output@), summary_results(test_model(output@))),
    ensures
        r@ == test_report(
            output@,
            test_model(output@),
            summary_results(test_model(output@)),
        ),
{
    let scan = scan_test(output);
    let results = scan.parse_summaries();
    report_test(output, &scan, &results)
}

/// Filters the output of `scarb test`, or gives nothing where the totals cannot be held.
pub fn filter_scarb_test_checked(output: &str) -> (r: Option<String>)
    ensures
        r is Some <==> countable(test_model(output@), summary_results(test_model(output@))),
        r is Some ==> r->0@ == test_report(
            output@,
            test_model(output@),
            summary_results(test_model(output@)),
        ),
{
    let scan = scan_test(output);
    if scan.failures.len() == 0 {
        let results = scan.parse_summaries();
        if have_all(&results) && add_up(&results).is_none() {
            return None;
        }
    }
    Some(filter_scarb_test(output))
}

} // verus!
