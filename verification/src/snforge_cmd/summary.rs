//! Summary lines of `snforge test`, and the compact line that stands for them.
use crate::counts;
use crate::pattern;
use crate::text;
use vstd::prelude::*;
use vstd::string::*;

verus! {

/// The counts in a summary line.
pub const COUNTS_PATTERN: &'static str = r"(\d+) passed,\s+(\d+) failed,\s+(\d+) ignored,\s+(\d+) filtered out";

/// Sums of test counts.
pub struct CountTotals {
    pub passed: nat,
    pub failed: nat,
    pub ignored: nat,
    pub filtered_out: nat,
}

impl CountTotals {
    /// Nothing counted.
    pub open spec fn zero() -> CountTotals {
        CountTotals { passed: 0, failed: 0, ignored: 0, filtered_out: 0 }
    }

    /// Each count added to its counterpart.
    pub open spec fn plus(self, other: CountTotals) -> CountTotals {
        CountTotals {
            passed: self.passed + other.passed,
            failed: self.failed + other.failed,
            ignored: self.ignored + other.ignored,
            filtered_out: self.filtered_out + other.filtered_out,
        }
    }

    /// Whether a `usize` can hold each of the counts.
    pub open spec fn fits(self) -> bool {
        &&& self.passed <= usize::MAX
        &&& self.failed <= usize::MAX
        &&& self.ignored <= usize::MAX
        &&& self.filtered_out <= usize::MAX
    }
}

/// The counts of a snforge "Tests summary:" or "Tests:" line.
/// Format: "Tests summary: N passed, N failed, N ignored, N filtered out"
#[derive(Debug, Clone, Copy, PartialEq, Eq, Structural)]
pub struct SnforgeTestCounts {
    pub passed: usize,
    pub failed: usize,
    pub ignored: usize,
    pub filtered_out: usize,
}

impl View for SnforgeTestCounts {
    type V = CountTotals;

    open spec fn view(&self) -> CountTotals {
        CountTotals {
            passed: self.passed as nat,
            failed: self.failed as nat,
            ignored: self.ignored as nat,
            filtered_out: self.filtered_out as nat,
        }
    }
}

/// The counts that the groups of a summary line's match stand for, if a `usize` can hold each.
pub open spec fn counts_of(groups: Option<Seq<Option<Seq<char>>>>) -> Option<SnforgeTestCounts> {
    match groups {
        None => None,
        Some(g) => match (
            pattern::group_number(g, 1),
            pattern::group_number(g, 2),
            pattern::group_number(g, 3),
            pattern::group_number(g, 4),
        ) {
            (Some(passed), Some(failed), Some(ignored), Some(filtered_out)) => Some(
                SnforgeTestCounts { passed, failed, ignored, filtered_out },
            ),
            _ => None,
        },
    }
}

/// The counts that a summary line holds.
pub open spec fn line_counts(line: Seq<char>) -> Option<SnforgeTestCounts> {
    counts_of(pattern::regex_captures(COUNTS_PATTERN@, line))
}

/// The counts that the summary lines of packages hold.
pub open spec fn package_counts(lines: Seq<Seq<char>>) -> Seq<Option<SnforgeTestCounts>> {
    Seq::new(lines.len(), |i: int| line_counts(lines[i]))
}

/// The counts that the summary line of the whole run holds, if there is such a line.
pub open spec fn global_counts(line: Option<Seq<char>>) -> Option<SnforgeTestCounts> {
    match line {
        None => None,
        Some(line) => line_counts(line),
    }
}

/// Whether every summary line holds counts.
pub open spec fn all_counts(counts: Seq<Option<SnforgeTestCounts>>) -> bool {
    forall|i: int| 0 <= i < counts.len() ==> (#[trigger] counts[i]) is Some
}

/// The sums of the packages' counts.
pub open spec fn totals(counts: Seq<Option<SnforgeTestCounts>>) -> CountTotals
    decreases counts.len(),
{
    if counts.len() == 0 {
        CountTotals::zero()
    } else {
        totals(counts.drop_last()).plus(counts.last()->0@)
    }
}

/// Whether the counts of the whole run tell that nothing failed.
pub open spec fn run_passed(global: Option<SnforgeTestCounts>) -> bool {
    global is Some && global->0.failed == 0
}

/// Whether the totals, where a compact line needs them, can be held.
pub open spec fn countable(
    global: Option<SnforgeTestCounts>,
    packages: Seq<Option<SnforgeTestCounts>>,
) -> bool {
    !run_passed(global) && all_counts(packages) ==> totals(packages).fits()
}

/// The compact line for a run in which nothing failed.
pub open spec fn compact_line(t: CountTotals, package_count: nat) -> Seq<char> {
    "✓ snforge test: "@ + counts::counts_text(t.passed, t.ignored, t.filtered_out) + " ("@
        + counts::quantity(package_count, " package"@, " packages"@) + ")"@
}

/// The larger of two numbers.
pub open spec fn max(a: nat, b: nat) -> nat {
    if a >= b {
        a
    } else {
        b
    }
}

/// The compact line for a run, if its summary lines tell that nothing failed: by the counts of
/// the whole run, or else by those of its packages together.
pub open spec fn compact_summary(
    global: Option<SnforgeTestCounts>,
    packages: Seq<Option<SnforgeTestCounts>>,
    package_count: nat,
) -> Option<Seq<char>> {
    if run_passed(global) {
        Some(compact_line(global->0@, max(package_count, 1)))
    } else if packages.len() > 0 && all_counts(packages) && totals(packages).failed == 0 {
        Some(compact_line(totals(packages), max(package_count, packages.len())))
    } else {
        None
    }
}

impl SnforgeTestCounts {
    /// Parses the counts of a summary line.
    pub fn parse(line: &str) -> (r: Option<SnforgeTestCounts>)
        ensures
            r == line_counts(line@),
    {
        let groups = pattern::captures(COUNTS_PATTERN, line);
        SnforgeTestCounts::from_captures(&groups)
    }

    /// The counts that the groups of a summary line's match stand for.
    pub fn from_captures(groups: &Option<Vec<Option<String>>>) -> (r: Option<SnforgeTestCounts>)
        ensures
            r == counts_of(pattern::group_views(*groups)),
    {
        match groups {
            None => None,
            Some(g) => match (
                pattern::group_count(g, 1),
                pattern::group_count(g, 2),
                pattern::group_count(g, 3),
                pattern::group_count(g, 4),
            ) {
                (Some(passed), Some(failed), Some(ignored), Some(filtered_out)) => Some(
                    SnforgeTestCounts { passed, failed, ignored, filtered_out },
                ),
                _ => None,
            },
        }
    }

    /// The compact line for a run in which nothing failed.
    pub fn format_compact(&self, package_count: usize) -> (r: String)
        ensures
            r@ == compact_line(self@, package_count as nat),
    {
        let mut out: String = "✓ snforge test: ".to_owned();
        counts::append_counts(&mut out, self.passed, self.ignored, self.filtered_out);
        out.append(" (");
        counts::append_quantity(&mut out, package_count, " package", " packages");
        out.append(")");
        out
    }
}

/// Whether the counts of the whole run tell that nothing failed.
fn has_passed(global: &Option<SnforgeTestCounts>) -> (r: bool)
    ensures
        r == run_passed(*global),
{
    match global {
        None => false,
        Some(counts) => counts.failed == 0,
    }
}

/// The counts that the summary lines of packages hold.
pub fn parse_packages(lines: &Vec<String>) -> (r: Vec<Option<SnforgeTestCounts>>)
    ensures
        r@ == package_counts(text::views(lines@)),
{
    let ghost all = package_counts(text::views(lines@));
    let mut out: Vec<Option<SnforgeTestCounts>> = Vec::new();
    let mut i: usize = 0;
    while i < lines.len()
        invariant
            all == package_counts(text::views(lines@)),
            i <= lines.len(),
            out@ == all.take(i as int),
        decreases lines.len() - i,
    {
        out.push(SnforgeTestCounts::parse(lines[i].as_str()));
        i = i + 1;
        assert(out@ == all.take(i as int));
    }
    assert(all.take(i as int) == all);
    out
}

/// Whether every summary line holds counts.
fn have_all(counts: &Vec<Option<SnforgeTestCounts>>) -> (r: bool)
    ensures
        r == all_counts(counts@),
{
    let mut i: usize = 0;
    while i < counts.len()
        invariant
            i <= counts.len(),
            forall|k: int| 0 <= k < i ==> (#[trigger] counts@[k]) is Some,
        decreases counts.len() - i,
    {
        if counts[i].is_none() {
            assert(counts@[i as int] is None);
            return false;
        }
        i = i + 1;
    }
    true
}

/// Adding fewer counts gives no larger sums.
proof fn lemma_totals_grow(counts: Seq<Option<SnforgeTestCounts>>, k: int)
    requires
        0 <= k <= counts.len(),
        totals(counts).fits(),
    ensures
        totals(counts.take(k)).fits(),
    decreases counts.len() - k,
{
    if k == counts.len() {
        assert(counts.take(k) == counts);
    } else {
        lemma_totals_grow(counts.drop_last(), k);
        assert(counts.drop_last().take(k) == counts.take(k));
    }
}

/// The sums of the packages' counts, if each can be held.
fn add_up(counts: &Vec<Option<SnforgeTestCounts>>) -> (r: Option<SnforgeTestCounts>)
    requires
        all_counts(counts@),
    ensures
        match r {
            Some(sum) => sum@ == totals(counts@) && totals(counts@).fits(),
            None => !totals(counts@).fits(),
        },
{
    let mut sum = SnforgeTestCounts { passed: 0, failed: 0, ignored: 0, filtered_out: 0 };
    let mut i: usize = 0;
    while i < counts.len()
        invariant
            all_counts(counts@),
            i <= counts.len(),
            sum@ == totals(counts@.take(i as int)),
        decreases counts.len() - i,
    {
        let ghost next = counts@.take(i + 1);
        proof {
            assert(next.drop_last() == counts@.take(i as int));
            assert(counts@[i as int] is Some);
            if totals(counts@).fits() {
                lemma_totals_grow(counts@, i + 1);
            }
        }
        if let Some(c) = &counts[i] {
            match (
                sum.passed.checked_add(c.passed),
                sum.failed.checked_add(c.failed),
                sum.ignored.checked_add(c.ignored),
                sum.filtered_out.checked_add(c.filtered_out),
            ) {
                (Some(passed), Some(failed), Some(ignored), Some(filtered_out)) => {
                    sum = SnforgeTestCounts { passed, failed, ignored, filtered_out };
                },
                _ => {
                    return None;
                },
            }
        }
        i = i + 1;
    }
    assert(counts@.take(i as int) == counts@);
    Some(sum)
}

/// The compact line for a run with the given counts, if they tell that nothing failed.
pub fn summarize(
    global: Option<SnforgeTestCounts>,
    packages: &Vec<Option<SnforgeTestCounts>>,
    package_count: usize,
) -> (r: Option<String>)
    requires
        countable(global, packages@),
    ensures
        text::opt_view(r) == compact_summary(global, packages@, package_count as nat),
{
    if let Some(c) = global {
        if c.failed == 0 {
            let n: usize = if package_count >= 1 {
                package_count
            } else {
                1
            };
            return Some(c.format_compact(n));
        }
    }
    if packages.len() > 0 && have_all(packages) {
        if let Some(sum) = add_up(packages) {
            if sum.failed == 0 {
                let n: usize = if package_count >= packages.len() {
                    package_count
                } else {
                    packages.len()
                };
                return Some(sum.format_compact(n));
            }
        }
    }
    None
}

/// Whether the totals, where the compact line for these summary lines needs them, can be held.
pub fn can_count(global: Option<&str>, per_pkg: &Vec<String>) -> (r: bool)
    ensures
        r == countable(
            global_counts(
                match global {
                    None => None,
                    Some(line) => Some(line@),
                },
            ),
            package_counts(text::views(per_pkg@)),
        ),
{
    let global_counts = match global {
        None => None,
        Some(line) => SnforgeTestCounts::parse(line),
    };
    if has_passed(&global_counts) {
        return true;
    }
    let packages = parse_packages(per_pkg);
    !have_all(&packages) || add_up(&packages).is_some()
}

/// Build compact `✓ snforge test: N passed (K packages)` from summary lines.
pub fn build_compact_summary(
    global: Option<&str>,
    per_pkg: &Vec<String>,
    package_count: usize,
) -> (r: Option<String>)
    requires
        countable(
            global_counts(
                match global {
                    None => None,
                    Some(line) => Some(line@),
                },
            ),
            package_counts(text::views(per_pkg@)),
        ),
    ensures
        text::opt_view(r) == compact_summary(
            global_counts(
                match global {
                    None => None,
                    Some(line) => Some(line@),
                },
            ),
            package_counts(text::views(per_pkg@)),
            package_count as nat,
        ),
{
    let global_counts = match global {
        None => None,
        Some(line) => SnforgeTestCounts::parse(line),
    };
    let packages = if has_passed(&global_counts) {
        Vec::new()
    } else {
        parse_packages(per_pkg)
    };
    summarize(global_counts, &packages, package_count)
}

} // verus!
