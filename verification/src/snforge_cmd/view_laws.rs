//! What the view of a test run shows, in which order, and what its compact line counts.
use crate::containment;
use crate::number;
use crate::pattern;
use crate::snforge_cmd::summary;
use crate::snforge_cmd::summary::SnforgeTestCounts;
use crate::snforge_cmd::test_laws;
use crate::snforge_cmd::test_output;
use crate::text;
use vstd::prelude::*;

verus! {

/// A summary line holds the counts that it shows in decimal.
pub proof fn law_summary_counts(
    whole: Option<Seq<char>>,
    passed: usize,
    failed: usize,
    ignored: usize,
    filtered_out: usize,
)
    ensures
        summary::counts_of(
            Some(
                seq![
                    whole,
                    Some(number::decimal(passed as nat)),
                    Some(number::decimal(failed as nat)),
                    Some(number::decimal(ignored as nat)),
                    Some(number::decimal(filtered_out as nat)),
                ],
            ),
        ) == Some(SnforgeTestCounts { passed, failed, ignored, filtered_out }),
{
    number::law_parse_undoes_decimal(passed);
    number::law_parse_undoes_decimal(failed);
    number::law_parse_undoes_decimal(ignored);
    number::law_parse_undoes_decimal(filtered_out);
    let g = seq![
        whole,
        Some(number::decimal(passed as nat)),
        Some(number::decimal(failed as nat)),
        Some(number::decimal(ignored as nat)),
        Some(number::decimal(filtered_out as nat)),
    ];
    assert(pattern::group_number(g, 1) == Some(passed));
    assert(pattern::group_number(g, 2) == Some(failed));
    assert(pattern::group_number(g, 3) == Some(ignored));
    assert(pattern::group_number(g, 4) == Some(filtered_out));
}

/// The counts of packages are added up: the totals of two lists together are the sums of their
/// totals, and those of one package are its counts.
pub proof fn law_totals_add(
    a: Seq<Option<SnforgeTestCounts>>,
    b: Seq<Option<SnforgeTestCounts>>,
)
    ensures
        ({
            let (s, t, u) = (summary::totals(a + b), summary::totals(a), summary::totals(b));
            &&& s.passed == t.passed + u.passed
            &&& s.failed == t.failed + u.failed
            &&& s.ignored == t.ignored + u.ignored
            &&& s.filtered_out == t.filtered_out + u.filtered_out
        }),
        forall|c: SnforgeTestCounts|
            ({
                let t = #[trigger] summary::totals(seq![Some(c)]);
                &&& t.passed == c.passed
                &&& t.failed == c.failed
                &&& t.ignored == c.ignored
                &&& t.filtered_out == c.filtered_out
            }),
    decreases b.len(),
{
    assert forall|c: SnforgeTestCounts|
        ({
            let t = #[trigger] summary::totals(seq![Some(c)]);
            &&& t.passed == c.passed
            &&& t.failed == c.failed
            &&& t.ignored == c.ignored
            &&& t.filtered_out == c.filtered_out
        }) by {
        let one = seq![Some(c)];
        assert(one.drop_last() =~= Seq::<Option<SnforgeTestCounts>>::empty());
        assert(summary::totals(one.drop_last()) == summary::CountTotals::zero());
        assert(one.last() == Some(c));
    }
    if b.len() == 0 {
        assert(a + b =~= a);
    } else {
        law_totals_add(a, b.drop_last());
        assert((a + b).drop_last() =~= a + b.drop_last());
        assert((a + b).last() == b.last());
    }
}

/// The line that stands for a run in which nothing failed.
pub open spec fn line_of(passed: nat, ignored: nat, filtered_out: nat, packages: nat) -> Seq<char> {
    "✓ snforge test: "@ + number::decimal(passed) + " passed"@ + (if ignored > 0 {
        ", "@ + number::decimal(ignored) + " ignored"@
    } else {
        seq![]
    }) + (if filtered_out > 0 {
        ", "@ + number::decimal(filtered_out) + " filtered out"@
    } else {
        seq![]
    }) + " ("@ + number::decimal(packages) + (if packages == 1 {
        " package)"@
    } else {
        " packages)"@
    })
}

/// The larger of two numbers.
pub open spec fn larger(a: nat, b: nat) -> nat {
    if a < b {
        b
    } else {
        a
    }
}

proof fn lemma_line(t: summary::CountTotals, packages: nat)
    ensures
        summary::compact_line(t, packages) == line_of(
            t.passed,
            t.ignored,
            t.filtered_out,
            packages,
        ),
{
    reveal_strlit(" package");
    reveal_strlit(" packages");
    reveal_strlit(" package)");
    reveal_strlit(" packages)");
    reveal_strlit(")");
    assert(" package"@ + ")"@ =~= " package)"@);
    assert(" packages"@ + ")"@ =~= " packages)"@);
    assert(summary::compact_line(t, packages) =~= line_of(
        t.passed,
        t.ignored,
        t.filtered_out,
        packages,
    ));
}

/// Where the counts of the whole run tell of no failed test, they make the line, for at least one
/// package.
pub proof fn law_run_counts_make_line(
    counts: SnforgeTestCounts,
    packages: Seq<Option<SnforgeTestCounts>>,
    package_count: nat,
)
    requires
        counts.failed == 0,
    ensures
        summary::compact_summary(Some(counts), packages, package_count) == Some(
            line_of(
                counts.passed as nat,
                counts.ignored as nat,
                counts.filtered_out as nat,
                larger(package_count, 1),
            ),
        ),
{
    lemma_line(counts@, larger(package_count, 1));
}

/// Where they do not, the counts of the packages make the line together, if there are packages,
/// each of them has counts and none tells of a failed test. Else there is no line.
pub proof fn law_package_counts_make_line(
    global: Option<SnforgeTestCounts>,
    packages: Seq<Option<SnforgeTestCounts>>,
    package_count: nat,
)
    requires
        global is None || global->0.failed > 0,
    ensures
        ({
            let t = summary::totals(packages);
            let passed = packages.len() > 0 && forall|i: int|
                0 <= i < packages.len() ==> (#[trigger] packages[i]) is Some
                    && packages[i]->0.failed == 0;
            summary::compact_summary(global, packages, package_count) == (if passed {
                Some(
                    line_of(
                        t.passed,
                        t.ignored,
                        t.filtered_out,
                        larger(package_count, packages.len()),
                    ),
                )
            } else {
                None
            })
        }),
{
    let t = summary::totals(packages);
    lemma_line(t, larger(package_count, packages.len()));
    if summary::all_counts(packages) {
        lemma_none_failed(packages);
    }
}

proof fn lemma_none_failed(packages: Seq<Option<SnforgeTestCounts>>)
    requires
        summary::all_counts(packages),
    ensures
        summary::totals(packages).failed == 0 <==> forall|i: int|
            0 <= i < packages.len() ==> (#[trigger] packages[i])->0.failed == 0,
    decreases packages.len(),
{
    if packages.len() > 0 {
        let rest = packages.drop_last();
        assert forall|i: int| 0 <= i < rest.len() implies (#[trigger] rest[i]) is Some by {
            assert(rest[i] == packages[i]);
        }
        lemma_none_failed(rest);
        let n = packages.len() - 1;
        assert(packages.last() == packages[n]);
        if summary::totals(packages).failed == 0 {
            assert forall|i: int| 0 <= i < packages.len() implies (#[trigger] packages[i])->0.failed
                == 0 by {
                if i < n {
                    assert(packages[i] == rest[i]);
                }
            }
        }
        if forall|i: int|
            0 <= i < packages.len() ==> (#[trigger] packages[i])->0.failed == 0 {
            assert forall|i: int| 0 <= i < rest.len() implies (#[trigger] rest[i])->0.failed
                == 0 by {
                assert(rest[i] == packages[i]);
            }
            assert(packages[n]->0.failed == 0);
        }
    }
}

/// The entries of gas report tables, each on an indented line under a heading.
pub open spec fn gas_report(entries: Seq<Seq<char>>) -> Seq<char> {
    if entries.len() == 0 {
        seq![]
    } else {
        "Gas report:\n"@ + text::each_ended(
            Seq::new(entries.len(), |i: int| "  "@ + entries[i]),
            "\n"@,
        )
    }
}

proof fn lemma_gas_report(entries: Seq<Seq<char>>)
    ensures
        test_output::gas_section(entries) == gas_report(entries),
{
    assert(entries.map_values(|e: Seq<char>| "  "@ + e) =~= Seq::new(
        entries.len(),
        |i: int| "  "@ + entries[i],
    ));
}

/// The view of a run with failures: the failures with a blank line after each, the entries of gas
/// report tables, the summaries of the packages and the last summary of the run.
pub proof fn law_failing_view(output: Seq<char>)
    requires
        test_output::run_model(output).failures.len() > 0,
    ensures
        ({
            let m = test_output::run_model(output);
            test_laws::view_of(output) == text::trimmed(
                text::each_ended(m.failures, "\n\n"@) + gas_report(m.gas_entries) + (
                if m.gas_entries.len() > 0 {
                    "\n"@
                } else {
                    seq![]
                }) + text::each_ended(m.package_summaries, "\n"@) + (match m.global_summary {
                    None => seq![],
                    Some(line) => line + "\n"@,
                }),
            )
        }),
{
    let m = test_output::run_model(output);
    lemma_gas_report(m.gas_entries);
    let start = text::each_ended(m.failures, "\n\n"@) + gas_report(m.gas_entries) + (
    if m.gas_entries.len() > 0 {
        "\n"@
    } else {
        seq![]
    });
    let whole: Seq<char> = match m.global_summary {
        None => seq![],
        Some(line) => line + "\n"@,
    };
    assert(start + (text::each_ended(m.package_summaries, "\n"@) + whole) =~= start
        + text::each_ended(m.package_summaries, "\n"@) + whole);
}

/// The view of a run without failures: the details, the entries of gas report tables, and then
/// the compact line or, where there is none, the summary lines.
pub proof fn law_passing_view(output: Seq<char>)
    requires
        test_output::run_model(output).failures.len() == 0,
    ensures
        ({
            let m = test_output::run_model(output);
            let compact = summary::compact_summary(
                match m.global_summary {
                    None => None,
                    Some(line) => summary::line_counts(line),
                },
                Seq::new(
                    m.package_summaries.len(),
                    |i: int| summary::line_counts(m.package_summaries[i]),
                ),
                m.packages,
            );
            test_laws::view_of(output) == text::trimmed(
                text::each_ended(m.details, "\n"@) + gas_report(m.gas_entries) + (match compact {
                    Some(line) => line + "\n"@,
                    None => text::each_ended(m.package_summaries, "\n"@) + (match m.global_summary {
                        None => seq![],
                        Some(line) => line + "\n"@,
                    }),
                }),
            )
        }),
{
    let m = test_output::run_model(output);
    lemma_gas_report(m.gas_entries);
    let compact = test_output::run_summary(m);
    assert(summary::package_counts(m.package_summaries) =~= Seq::new(
        m.package_summaries.len(),
        |i: int| summary::line_counts(m.package_summaries[i]),
    ));
    if m.details.len() == 0 && m.gas_entries.len() == 0 && compact is Some {
        reveal_strlit("\n");
        let line = compact->0;
        let none = Seq::<char>::empty();
        assert(text::each_ended(m.details, "\n"@) =~= none);
        assert(none + none + (line + "\n"@) =~= line + "\n"@);
        test_laws::law_view_trimmed(output);
        lemma_end_trimmed(line);
    }
}

/// A line feed after a trimmed line is trimmed away.
proof fn lemma_end_trimmed(line: Seq<char>)
    requires
        text::trimmed(line) == line,
        line.len() > 0,
    ensures
        text::trimmed(line + "\n"@) == line,
{
    reveal_strlit("\n");
    let r = containment::lemma_trimmed_bounds(line);
    let s = line + "\n"@;
    assert(r.0 == 0 && r.1 == line.len());
    assert(s[0] == line[0]);
    assert(s.last() == '\n');
    assert(s.drop_last() =~= line);
    assert(text::trimmed_start(s) == s);
    assert(text::trimmed_end(s) == text::trimmed_end(line));
    assert(text::trimmed_start(line) == line);
}

/// A run without failures can be shown just where its compact line needs no sums of packages'
/// counts, or each of these fits into a `usize`. One with failures can always be shown.
pub proof fn law_when_shown(output: Seq<char>)
    ensures
        ({
            let m = test_output::run_model(output);
            let global = match m.global_summary {
                None => None,
                Some(line) => summary::line_counts(line),
            };
            let counts = Seq::new(
                m.package_summaries.len(),
                |i: int| summary::line_counts(m.package_summaries[i]),
            );
            let t = summary::totals(counts);
            test_output::countable(m) <==> {
                ||| m.failures.len() > 0
                ||| global is Some && global->0.failed == 0
                ||| exists|i: int| 0 <= i < counts.len() && (#[trigger] counts[i]) is None
                ||| {
                    &&& t.passed <= usize::MAX
                    &&& t.failed <= usize::MAX
                    &&& t.ignored <= usize::MAX
                    &&& t.filtered_out <= usize::MAX
                }
            }
        }),
{
    let m = test_output::run_model(output);
    assert(summary::package_counts(m.package_summaries) =~= Seq::new(
        m.package_summaries.len(),
        |i: int| summary::line_counts(m.package_summaries[i]),
    ));
}

} // verus!
