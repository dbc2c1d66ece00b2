//! When the view of a test run holds the tick of success.
use crate::containment;
use crate::snforge_cmd::gas;
use crate::snforge_cmd::summary;
use crate::snforge_cmd::test_laws;
use crate::snforge_cmd::test_output;
use crate::snforge_cmd::test_output::{RunLine, RunModel};
use crate::text;
use vstd::prelude::*;

verus! {

/// Whether a line is a `[FAIL]` line or the heading of what a failed test left.
pub open spec fn is_failure(line: Seq<char>) -> bool {
    let t = text::trimmed(line);
    "[FAIL]"@.is_prefix_of(t) || t == "Failure data:"@
}

/// Whether a line tells that the tests of a package were collected.
pub open spec fn is_collected(line: Seq<char>) -> bool {
    let t = text::trimmed(line);
    "Collected "@.is_prefix_of(t) && text::has_text(t, "test(s) from"@)
}

/// The last line that sums up the whole run.
pub open spec fn last_run_summary(lines: Seq<Seq<char>>) -> Option<Seq<char>>
    decreases lines.len(),
{
    if lines.len() == 0 {
        None
    } else if test_output::run_summary_line(lines.last()) {
        Some(lines.last())
    } else {
        last_run_summary(lines.drop_last())
    }
}

/// The lines that sum up the tests of a package.
pub open spec fn package_summaries(lines: Seq<Seq<char>>) -> Seq<Seq<char>>
    decreases lines.len(),
{
    if lines.len() == 0 {
        seq![]
    } else if test_output::package_summary_line(lines.last()) {
        package_summaries(lines.drop_last()).push(lines.last())
    } else {
        package_summaries(lines.drop_last())
    }
}

/// How many lines tell that the tests of a package were collected.
pub open spec fn collected(lines: Seq<Seq<char>>) -> nat
    decreases lines.len(),
{
    if lines.len() == 0 {
        0
    } else {
        collected(lines.drop_last()) + (if is_collected(lines.last()) {
            1nat
        } else {
            0nat
        })
    }
}

/// The compact line that the summary lines of an output give, if they give one.
pub open spec fn compact_of(lines: Seq<Seq<char>>) -> Option<Seq<char>> {
    summary::compact_summary(
        summary::global_counts(last_run_summary(lines)),
        summary::package_counts(package_summaries(lines)),
        collected(lines),
    )
}

/// Whether no line begins a compiler warning or a table.
pub open spec fn is_bare(lines: Seq<Seq<char>>) -> bool {
    forall|i: int|
        0 <= i < lines.len() ==> !test_output::warning_start(#[trigger] lines[i])
            && !gas::table_start(lines[i])
}

/// Whether a text holds no tick.
pub open spec fn tickless(s: Seq<char>) -> bool {
    forall|i: int| 0 <= i < s.len() ==> #[trigger] s[i] != '✓'
}

/// Whether no text holds a tick.
spec fn all_tickless(parts: Seq<Seq<char>>) -> bool {
    forall|i: int| 0 <= i < parts.len() ==> tickless(#[trigger] parts[i])
}

proof fn lemma_add(a: Seq<char>, b: Seq<char>)
    requires
        tickless(a),
        tickless(b),
    ensures
        tickless(a + b),
{
}

proof fn lemma_part(s: Seq<char>, i: int, j: int)
    requires
        0 <= i <= j <= s.len(),
        tickless(s),
    ensures
        tickless(s.subrange(i, j)),
{
    assert forall|k: int| 0 <= k < j - i implies #[trigger] s.subrange(i, j)[k] != '✓' by {
        assert(s[i + k] != '✓');
    }
}

proof fn lemma_skip(s: Seq<char>, n: int)
    requires
        0 <= n <= s.len(),
        tickless(s),
    ensures
        tickless(s.skip(n)),
{
    lemma_part(s, n, s.len() as int);
    assert(s.skip(n) =~= s.subrange(n, s.len() as int));
}

proof fn lemma_take(s: Seq<char>, n: int)
    requires
        0 <= n <= s.len(),
        tickless(s),
    ensures
        tickless(s.take(n)),
{
    lemma_part(s, 0, n);
    assert(s.take(n) =~= s.subrange(0, n));
}

proof fn lemma_trimmed(s: Seq<char>)
    requires
        tickless(s),
    ensures
        tickless(text::trimmed(s)),
{
    let r = containment::lemma_trimmed_bounds(s);
    lemma_part(s, r.0, r.1);
}

proof fn lemma_all_push(parts: Seq<Seq<char>>, part: Seq<char>)
    requires
        all_tickless(parts),
        tickless(part),
    ensures
        all_tickless(parts.push(part)),
{
}

proof fn lemma_all_first(part: Seq<char>, parts: Seq<Seq<char>>)
    requires
        tickless(part),
        all_tickless(parts),
    ensures
        all_tickless(seq![part] + parts),
{
    let all = seq![part] + parts;
    assert forall|i: int| 0 <= i < all.len() implies tickless(#[trigger] all[i]) by {
        if i > 0 {
            assert(all[i] == parts[i - 1]);
        }
    }
}

proof fn lemma_joined(parts: Seq<Seq<char>>, sep: Seq<char>)
    requires
        all_tickless(parts),
        tickless(sep),
    ensures
        tickless(text::joined(parts, sep)),
    decreases parts.len(),
{
    if parts.len() > 0 {
        assert(tickless(parts[0]));
        if parts.len() > 1 {
            let rest = parts.skip(1);
            assert forall|i: int| 0 <= i < rest.len() implies tickless(#[trigger] rest[i]) by {
                assert(rest[i] == parts[i + 1]);
            }
            lemma_joined(rest, sep);
            lemma_add(parts[0], sep);
            lemma_add(parts[0] + sep, text::joined(rest, sep));
        }
    }
}

proof fn lemma_each_ended(parts: Seq<Seq<char>>, end: Seq<char>)
    requires
        all_tickless(parts),
        tickless(end),
    ensures
        tickless(text::each_ended(parts, end)),
    decreases parts.len(),
{
    if parts.len() > 0 {
        let rest = parts.drop_last();
        assert forall|i: int| 0 <= i < rest.len() implies tickless(#[trigger] rest[i]) by {
            assert(rest[i] == parts[i]);
        }
        lemma_each_ended(rest, end);
        assert(tickless(parts[parts.len() - 1]));
        lemma_add(text::each_ended(rest, end), parts.last());
        lemma_add(text::each_ended(rest, end) + parts.last(), end);
    }
}

proof fn lemma_lines(s: Seq<char>)
    requires
        tickless(s),
    ensures
        all_tickless(text::lines_of(s)),
    decreases s.len(),
{
    let u = text::upto(s, '\n');
    text::lemma_upto_bounds(s, '\n');
    if s.len() == 0 {
    } else if u >= s.len() {
    } else {
        let line = s.take(u);
        lemma_take(s, u);
        if line.len() > 0 {
            lemma_take(line, line.len() - 1);
            assert(line.drop_last() =~= line.take(line.len() - 1));
        }
        lemma_skip(s, u + 1);
        lemma_lines(s.skip(u + 1));
        lemma_all_first(text::without_cr(line), text::lines_of(s.skip(u + 1)));
    }
}

proof fn lemma_split(s: Seq<char>, c: char)
    requires
        tickless(s),
    ensures
        all_tickless(text::split_at_each(s, c)),
    decreases s.len(),
{
    let u = text::upto(s, c);
    text::lemma_upto_bounds(s, c);
    if u < s.len() {
        lemma_take(s, u);
        lemma_skip(s, u + 1);
        lemma_split(s.skip(u + 1), c);
        lemma_all_first(s.take(u), text::split_at_each(s.skip(u + 1), c));
    }
}

proof fn lemma_replaced(s: Seq<char>, from: Seq<char>, to: Seq<char>)
    requires
        tickless(s),
        tickless(to),
    ensures
        tickless(text::replaced(s, from, to)),
    decreases s.len(),
{
    if s.len() == 0 || from.len() == 0 {
    } else if from.is_prefix_of(s) {
        lemma_skip(s, from.len() as int);
        lemma_replaced(s.skip(from.len() as int), from, to);
        lemma_add(to, text::replaced(s.skip(from.len() as int), from, to));
    } else {
        lemma_skip(s, 1);
        lemma_replaced(s.skip(1), from, to);
        assert(s[0] != '✓');
        lemma_add(seq![s[0]], text::replaced(s.skip(1), from, to));
    }
}

proof fn lemma_without_parens(s: Seq<char>)
    requires
        tickless(s),
    ensures
        tickless(text::without_parens(s)),
    decreases s.len(),
{
    if s.len() > 0 {
        lemma_skip(s, 1);
        lemma_take(s, s.len() - 1);
        assert(s.drop_last() =~= s.take(s.len() - 1));
        if text::is_paren(s[0]) {
            lemma_without_parens(s.skip(1));
        } else if text::is_paren(s.last()) {
            lemma_without_parens(s.drop_last());
        }
    }
}

proof fn lemma_field(piece: Seq<char>)
    requires
        tickless(piece),
    ensures
        gas::gas_field(piece) is Some ==> tickless(gas::gas_field(piece)->0),
{
    reveal_strlit("l1d:");
    reveal_strlit("l1:");
    reveal_strlit("l2:");
    let field = text::trimmed(piece);
    lemma_trimmed(piece);
    if "l1_data_gas: "@.is_prefix_of(field) {
        lemma_skip(field, "l1_data_gas: "@.len() as int);
        lemma_add("l1d:"@, field.skip("l1_data_gas: "@.len() as int));
    }
    if "l1_gas: "@.is_prefix_of(field) {
        lemma_skip(field, "l1_gas: "@.len() as int);
        lemma_add("l1:"@, field.skip("l1_gas: "@.len() as int));
    }
    if "l2_gas: "@.is_prefix_of(field) {
        lemma_skip(field, "l2_gas: "@.len() as int);
        lemma_add("l2:"@, field.skip("l2_gas: "@.len() as int));
    }
}

proof fn lemma_fields(pieces: Seq<Seq<char>>)
    requires
        all_tickless(pieces),
    ensures
        all_tickless(pieces.filter_map(|piece: Seq<char>| gas::gas_field(piece))),
    decreases pieces.len(),
{
    reveal(Seq::filter_map);
    let f = |piece: Seq<char>| gas::gas_field(piece);
    if pieces.len() > 0 {
        let rest = pieces.drop_last();
        assert forall|i: int| 0 <= i < rest.len() implies tickless(#[trigger] rest[i]) by {
            assert(rest[i] == pieces[i]);
        }
        lemma_fields(rest);
        assert(tickless(pieces[pieces.len() - 1]));
        lemma_field(pieces.last());
        let before = rest.filter_map(f);
        match f(pieces.last()) {
            None => {},
            Some(field) => {
                assert(before + seq![field] =~= before.push(field));
                lemma_all_push(before, field);
            },
        }
    }
}

proof fn lemma_last_position(s: Seq<char>, c: char)
    ensures
        text::last_position(s, c) matches Some(i) ==> 0 <= i < s.len(),
    decreases s.len(),
{
    if s.len() > 0 && s.last() != c {
        lemma_last_position(s.drop_last(), c);
    }
}

proof fn lemma_pass_gas(line: Seq<char>)
    requires
        tickless(line),
    ensures
        gas::pass_gas(line) is Some ==> tickless(gas::pass_gas(line)->0),
{
    reveal_strlit(" (");
    reveal_strlit(" ");
    reveal_strlit(")");
    lemma_last_position(line, '(');
    lemma_last_position(line, ')');
    if let (Some(start), Some(end)) = (
        text::last_position(line, '('),
        text::last_position(line, ')'),
    ) {
        if start < end {
            let name = text::trimmed(line.take(start));
            let figures = line.subrange(start + 1, end);
            let fields = gas::gas_fields(figures);
            lemma_take(line, start);
            lemma_trimmed(line.take(start));
            lemma_part(line, start + 1, end);
            lemma_split(figures, ',');
            lemma_fields(text::split_at_each(figures, ','));
            lemma_joined(fields, " "@);
            lemma_add(name, " ("@);
            lemma_add(name + " ("@, text::joined(fields, " "@));
            lemma_add(name + " ("@ + text::joined(fields, " "@), ")"@);
        }
    }
}

proof fn lemma_resource(line: Seq<char>)
    requires
        tickless(line),
    ensures
        gas::resource_text(line) is Some ==> tickless(gas::resource_text(line)->0),
{
    reveal_strlit("syscalls");
    reveal_strlit("builtins");
    reveal_strlit("l2_msg");
    reveal_strlit("  ");
    reveal_strlit(":");
    reveal_strlit(",");
    let t = text::trimmed(line);
    lemma_trimmed(line);
    if let Some((name, value)) = gas::resource(line) {
        let n: int = if "syscalls:"@.is_prefix_of(t) {
            "syscalls:"@.len() as int
        } else if "builtins:"@.is_prefix_of(t) {
            "builtins:"@.len() as int
        } else {
            "l2_l1_message_sizes:"@.len() as int
        };
        lemma_skip(t, n);
        lemma_trimmed(t.skip(n));
        lemma_without_parens(value);
        lemma_replaced(text::without_parens(value), ": "@, ":"@);
        lemma_replaced(text::replaced(text::without_parens(value), ": "@, ":"@), ", "@, ","@);
        lemma_add("  "@, name);
        lemma_add("  "@ + name, ":"@);
        lemma_add("  "@ + name + ":"@, gas::tight(value));
    }
}

/// Whether nothing that was read holds a tick, and no warning and no table was read.
spec fn quiet(m: RunModel) -> bool {
    &&& all_tickless(m.details)
    &&& all_tickless(m.failures)
    &&& all_tickless(m.package_summaries)
    &&& all_tickless(m.data)
    &&& m.global_summary is Some ==> tickless(m.global_summary->0)
    &&& m.pending is Some ==> tickless(m.pending->0)
    &&& m.gas_entries.len() == 0
    &&& m.table.len() == 0
    &&& !m.in_warning
}

proof fn lemma_quiet_closed(m: RunModel)
    requires
        quiet(m),
    ensures
        quiet(m.data_closed()),
        quiet(m.settled()),
{
    reveal_strlit("\n");
    let block = match m.pending {
        None => m.data,
        Some(fail) => seq![fail] + m.data,
    };
    if m.pending is Some {
        lemma_all_first(m.pending->0, m.data);
    }
    lemma_joined(block, "\n"@);
    lemma_all_push(m.failures, text::joined(block, "\n"@));
    let c = m.data_closed();
    if c.pending is Some {
        lemma_all_push(c.failures, c.pending->0);
    }
}

proof fn lemma_quiet_line(m: RunModel, line: Seq<char>)
    requires
        quiet(m),
        tickless(line),
        !test_output::warning_start(line),
        !gas::table_start(line),
    ensures
        quiet(m.with_line(line)),
{
    lemma_quiet_closed(m);
    lemma_all_push(m.data, line);
    lemma_all_push(m.package_summaries, line);
    lemma_resource(line);
    lemma_trimmed(line);
    lemma_pass_gas(text::trimmed(line));
    let calm = RunModel { in_warning: false, ..m };
    assert(calm == m);
    if let Some(detail) = gas::resource_text(line) {
        lemma_all_push(m.details, detail);
    }
    if let Some(detail) = gas::pass_gas(text::trimmed(line)) {
        lemma_all_push(m.data_closed().details, detail);
    }
}

proof fn lemma_quiet_scan(lines: Seq<Seq<char>>)
    requires
        all_tickless(lines),
        is_bare(lines),
    ensures
        quiet(test_output::scanned(lines)),
    decreases lines.len(),
{
    if lines.len() > 0 {
        let rest = lines.drop_last();
        assert forall|i: int| 0 <= i < rest.len() implies tickless(#[trigger] rest[i])
            && !test_output::warning_start(rest[i]) && !gas::table_start(rest[i]) by {
            assert(rest[i] == lines[i]);
            assert(tickless(lines[i]));
        }
        assert(lines.last() == lines[lines.len() - 1]);
        assert(tickless(lines.last()));
        lemma_quiet_scan(rest);
        lemma_quiet_line(test_output::scanned(rest), lines.last());
    }
}

/// What trimming leaves of a line begins as the line does after the white space at its start.
proof fn lemma_trimmed_first(s: Seq<char>)
    ensures
        text::trimmed_end(s).len() <= s.len(),
        forall|j: int|
            0 <= j < text::trimmed_end(s).len() ==> #[trigger] text::trimmed_end(s)[j] == s[j],
    decreases s.len(),
{
    if s.len() > 0 && text::is_white(s.last()) {
        lemma_trimmed_first(s.drop_last());
    }
}

proof fn lemma_prefix(p: Seq<char>, s: Seq<char>)
    requires
        p.is_prefix_of(s),
    ensures
        p.len() <= s.len(),
        forall|j: int| 0 <= j < p.len() ==> #[trigger] p[j] == s[j],
{
    assert forall|j: int| 0 <= j < p.len() implies #[trigger] p[j] == s[j] by {
        assert(p[j] == s.subrange(0, p.len() as int)[j]);
    }
}

/// A line that tells of compiling begins with one of a few words.
proof fn lemma_noise_starts(line: Seq<char>)
    requires
        test_output::compilation_noise(line),
    ensures
        ({
            let s = text::trimmed_start(line);
            &&& s.len() >= 3
            &&& ({
                ||| s[0] == 'C' && s[1] == 'o' && s[2] == 'm'
                ||| s[0] == 'C' && s[1] == 'h'
                ||| s[0] == 'B'
                ||| s[0] == 'D'
                ||| s[0] == 'L'
                ||| s[0] == 'U'
                ||| s[0] == 'F' && s[1] == 'i'
            })
        }),
{
    reveal_strlit("Compiling ");
    reveal_strlit("Checking ");
    reveal_strlit("Blocking waiting for file lock");
    reveal_strlit("Downloading ");
    reveal_strlit("Downloaded ");
    reveal_strlit("Locking ");
    reveal_strlit("Updating ");
    reveal_strlit("Finished ");
    let s = text::trimmed_start(line);
    if "Compiling "@.is_prefix_of(s) {
        lemma_prefix("Compiling "@, s);
        assert("Compiling "@[0] == s[0] && "Compiling "@[1] == s[1] && "Compiling "@[2] == s[2]);
    } else if "Checking "@.is_prefix_of(s) {
        lemma_prefix("Checking "@, s);
        assert("Checking "@[0] == s[0] && "Checking "@[1] == s[1]);
    } else if "Blocking waiting for file lock"@.is_prefix_of(s) {
        lemma_prefix("Blocking waiting for file lock"@, s);
        assert("Blocking waiting for file lock"@[0] == s[0]);
    } else if "Downloading "@.is_prefix_of(s) {
        lemma_prefix("Downloading "@, s);
        assert("Downloading "@[0] == s[0]);
    } else if "Downloaded "@.is_prefix_of(s) {
        lemma_prefix("Downloaded "@, s);
        assert("Downloaded "@[0] == s[0]);
    } else if "Locking "@.is_prefix_of(s) {
        lemma_prefix("Locking "@, s);
        assert("Locking "@[0] == s[0]);
    } else if "Updating "@.is_prefix_of(s) {
        lemma_prefix("Updating "@, s);
        assert("Updating "@[0] == s[0]);
    } else {
        lemma_prefix("Finished "@, s);
        assert("Finished "@[0] == s[0] && "Finished "@[1] == s[1]);
    }
}

/// A line of a kind that comes before the last ones begins with one of a few words.
proof fn lemma_kind_starts(line: Seq<char>)
    ensures
        ({
            let t = text::trimmed(line);
            match test_output::line_kind(line) {
                RunLine::Dropped => {
                    &&& t.len() >= 2
                    &&& t[0] == 's' || t[0] == 'N' || t[0] == 'R' || (t[0] == '[' && t[1] == 'I')
                },
                RunLine::Resource => t.len() >= 2 && (t[0] == 's' || t[0] == 'b' || t[0] == 'l'),
                RunLine::Collected => t.len() >= 2 && t[0] == 'C',
                RunLine::Pass => t.len() >= 2 && t[0] == '[' && t[1] == 'P',
                RunLine::Fail => t.len() >= 2 && t[0] == '[' && t[1] == 'F',
                RunLine::FailureData => t.len() >= 2 && t[0] == 'F',
                RunLine::Other => true,
            }
        }),
{
    reveal_strlit("sierra gas:");
    reveal_strlit("syscalls:");
    reveal_strlit("builtins:");
    reveal_strlit("l2_l1_message_sizes:");
    reveal_strlit("No contract gas usage data");
    reveal_strlit("Running ");
    reveal_strlit("Collected ");
    reveal_strlit("[PASS]");
    reveal_strlit("[IGNORED]");
    reveal_strlit("[FAIL]");
    reveal_strlit("Failure data:");
    let t = text::trimmed(line);
    if "sierra gas:"@.is_prefix_of(t) {
        lemma_prefix("sierra gas:"@, t);
        assert("sierra gas:"@[0] == t[0]);
    } else if "syscalls:"@.is_prefix_of(t) {
        lemma_prefix("syscalls:"@, t);
        assert("syscalls:"@[0] == t[0]);
    } else if "builtins:"@.is_prefix_of(t) {
        lemma_prefix("builtins:"@, t);
        assert("builtins:"@[0] == t[0]);
    } else if "l2_l1_message_sizes:"@.is_prefix_of(t) {
        lemma_prefix("l2_l1_message_sizes:"@, t);
        assert("l2_l1_message_sizes:"@[0] == t[0]);
    } else if "No contract gas usage data"@.is_prefix_of(t) {
        lemma_prefix("No contract gas usage data"@, t);
        assert("No contract gas usage data"@[0] == t[0]);
    } else if "Running "@.is_prefix_of(t) {
        lemma_prefix("Running "@, t);
        assert("Running "@[0] == t[0]);
    } else if "Collected "@.is_prefix_of(t) {
        lemma_prefix("Collected "@, t);
        assert("Collected "@[0] == t[0]);
    } else if "[PASS]"@.is_prefix_of(t) {
        lemma_prefix("[PASS]"@, t);
        assert("[PASS]"@[0] == t[0] && "[PASS]"@[1] == t[1]);
    } else if "[IGNORED]"@.is_prefix_of(t) {
        lemma_prefix("[IGNORED]"@, t);
        assert("[IGNORED]"@[0] == t[0] && "[IGNORED]"@[1] == t[1]);
    } else if "[FAIL]"@.is_prefix_of(t) {
        lemma_prefix("[FAIL]"@, t);
        assert("[FAIL]"@[0] == t[0] && "[FAIL]"@[1] == t[1]);
    }
}

/// How a line is read that tells of a failure, sums up tests or tells that they were collected.
proof fn lemma_kinds(line: Seq<char>)
    ensures
        is_failure(line) <==> test_output::line_kind(line) is Fail || test_output::line_kind(
            line,
        ) is FailureData,
        is_collected(line) <==> test_output::line_kind(line) is Collected,
        test_output::run_summary_line(line) || test_output::package_summary_line(line)
            ==> test_output::line_kind(line) is Other,
        !(test_output::run_summary_line(line) && test_output::package_summary_line(line)),
        is_failure(line) || is_collected(line) || test_output::run_summary_line(line)
            || test_output::package_summary_line(line)
            ==> !test_output::compilation_noise(line),
{
    reveal_strlit("[FAIL]");
    reveal_strlit("Failure data:");
    reveal_strlit("Tests summary:");
    reveal_strlit("Tests:");
    reveal_strlit("Collected ");
    let t = text::trimmed(line);
    let s = text::trimmed_start(line);
    lemma_kind_starts(line);
    lemma_trimmed_first(s);
    if test_output::compilation_noise(line) {
        lemma_noise_starts(line);
    }
    if "[FAIL]"@.is_prefix_of(t) {
        lemma_prefix("[FAIL]"@, t);
        assert("[FAIL]"@[0] == t[0] && "[FAIL]"@[1] == t[1]);
        assert(t[0] == s[0]);
    }
    if t == "Failure data:"@ {
        assert(t[0] == s[0] && t[1] == s[1]);
    }
    if "Tests summary:"@.is_prefix_of(t) {
        lemma_prefix("Tests summary:"@, t);
        assert("Tests summary:"@[0] == t[0] && "Tests summary:"@[5] == t[5]);
        assert(t[0] == s[0]);
    }
    if "Tests:"@.is_prefix_of(t) {
        lemma_prefix("Tests:"@, t);
        assert("Tests:"@[0] == t[0] && "Tests:"@[5] == t[5]);
        assert(t[0] == s[0]);
    }
    if "Collected "@.is_prefix_of(t) {
        lemma_prefix("Collected "@, t);
        assert("Collected "@[0] == t[0] && "Collected "@[1] == t[1] && "Collected "@[2] == t[2]);
        assert(t[0] == s[0] && t[1] == s[1] && t[2] == s[2]);
    }
}

/// What is read of an output in which nothing tells of a failure.
proof fn lemma_scan_without_failures(lines: Seq<Seq<char>>)
    requires
        is_bare(lines),
        forall|i: int| 0 <= i < lines.len() ==> !is_failure(#[trigger] lines[i]),
    ensures
        ({
            let m = test_output::scanned(lines);
            &&& m.failures.len() == 0
            &&& m.data.len() == 0
            &&& m.pending is None
            &&& m.table.len() == 0
            &&& !m.in_warning
            &&& m.global_summary == last_run_summary(lines)
            &&& m.package_summaries == package_summaries(lines)
            &&& m.packages == collected(lines)
        }),
    decreases lines.len(),
{
    if lines.len() > 0 {
        let rest = lines.drop_last();
        let line = lines.last();
        assert forall|i: int| 0 <= i < rest.len() implies !is_failure(#[trigger] rest[i])
            && !test_output::warning_start(rest[i]) && !gas::table_start(rest[i]) by {
            assert(rest[i] == lines[i]);
            assert(!is_failure(lines[i]));
        }
        assert(line == lines[lines.len() - 1]);
        assert(!is_failure(lines[lines.len() - 1]));
        lemma_scan_without_failures(rest);
        lemma_kinds(line);
    }
}

/// A line that tells of a failure makes one.
proof fn lemma_failure_found(output: Seq<char>, i: int)
    requires
        tickless(output),
        is_bare(text::lines_of(output)),
        0 <= i < text::lines_of(output).len(),
        is_failure(text::lines_of(output)[i]),
    ensures
        test_output::run_model(output).failures.len() > 0,
{
    let lines = text::lines_of(output);
    let first = lines.take(i);
    lemma_lines(output);
    assert forall|k: int| 0 <= k < first.len() implies tickless(#[trigger] first[k])
        && !test_output::warning_start(first[k]) && !gas::table_start(first[k]) by {
        assert(first[k] == lines[k]);
        assert(tickless(lines[k]));
    }
    lemma_quiet_scan(first);
    lemma_kinds(lines[i]);
    test_laws::lemma_failure_kept(output, i);
}

/// The view of an output without ticks, compiler warnings and tables holds a tick just where no
/// line tells of a failure and the summary lines give a compact line.
pub proof fn law_tick_means_success(output: Seq<char>)
    requires
        !output.contains('✓'),
        is_bare(text::lines_of(output)),
    ensures
        ({
            let lines = text::lines_of(output);
            test_laws::view_of(output).contains('✓') <==> {
                &&& forall|i: int| 0 <= i < lines.len() ==> !is_failure(#[trigger] lines[i])
                &&& compact_of(lines) is Some
            }
        }),
{
    let lines = text::lines_of(output);
    let m = test_output::run_model(output);
    let view = test_laws::view_of(output);
    assert(tickless(output)) by {
        assert forall|i: int| 0 <= i < output.len() implies #[trigger] output[i] != '✓' by {
            assert(output.contains(output[i]));
        }
    }
    lemma_lines(output);
    lemma_quiet_scan(lines);
    lemma_quiet_closed(test_output::scanned(lines));
    if forall|i: int| 0 <= i < lines.len() ==> !is_failure(#[trigger] lines[i]) {
        lemma_scan_without_failures(lines);
        assert(test_output::run_summary(m) == compact_of(lines));
        if compact_of(lines) is Some {
            lemma_compact_shown(m);
        } else {
            lemma_no_tick(m);
        }
    } else {
        let i = choose|i: int| 0 <= i < lines.len() && is_failure(#[trigger] lines[i]);
        lemma_failure_found(output, i);
        lemma_no_tick(m);
    }
    assert(tickless(view) ==> !view.contains('✓'));
}

/// The compact line brings a tick into the view.
proof fn lemma_compact_shown(m: RunModel)
    requires
        m.failures.len() == 0,
        test_output::run_summary(m) is Some,
    ensures
        test_output::run_report(m, test_output::run_summary(m)).contains('✓'),
{
    let compact = test_output::run_summary(m)->0;
    let view = test_output::run_report(m, test_output::run_summary(m));
    reveal_strlit("✓ snforge test: ");
    reveal_strlit(")");
    assert(compact[0] == '✓');
    assert(compact.last() == ')');
    containment::lemma_trimmed_already(compact);
    if m.details.len() == 0 && m.gas_entries.len() == 0 {
        assert(view[0] == '✓');
    } else {
        let start = text::each_ended(m.details, "\n"@) + test_output::gas_section(m.gas_entries);
        containment::lemma_itself(compact);
        containment::lemma_in_first(compact, "\n"@, compact);
        containment::lemma_in_second(start, compact + "\n"@, compact);
        containment::lemma_trimming_keeps(start + (compact + "\n"@), compact);
        let at = choose|at: int| text::occurs_at(view, compact, at);
        assert(view.subrange(at, at + compact.len())[0] == view[at]);
    }
}

/// A view without compact line holds no tick where nothing that was read does.
proof fn lemma_no_tick(m: RunModel)
    requires
        quiet(m),
        m.failures.len() > 0 || test_output::run_summary(m) is None,
    ensures
        tickless(test_output::run_report(m, test_output::run_summary(m))),
{
    reveal_strlit("\n");
    reveal_strlit("\n\n");
    let none = Seq::<char>::empty();
    let packages = text::each_ended(m.package_summaries, "\n"@);
    let whole: Seq<char> = match m.global_summary {
        None => seq![],
        Some(line) => line + "\n"@,
    };
    lemma_each_ended(m.package_summaries, "\n"@);
    if m.global_summary is Some {
        lemma_add(m.global_summary->0, "\n"@);
    }
    lemma_add(packages, whole);
    let end = test_output::summary_lines(m);
    if m.failures.len() > 0 {
        let all = text::each_ended(m.failures, "\n\n"@);
        lemma_each_ended(m.failures, "\n\n"@);
        assert(all + none + none =~= all);
        lemma_add(all, end);
        lemma_trimmed(all + none + none + end);
    } else {
        let all = text::each_ended(m.details, "\n"@);
        lemma_each_ended(m.details, "\n"@);
        assert(all + none =~= all);
        lemma_add(all, end);
        lemma_trimmed(all + none + end);
    }
}

} // verus!
