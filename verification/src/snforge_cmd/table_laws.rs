//! How the tables of a gas report become entries, and that none is lost.
use crate::snforge_cmd::gas;
use crate::snforge_cmd::gas::TableModel;
use crate::snforge_cmd::gas_laws;
use crate::snforge_cmd::run_laws;
use crate::snforge_cmd::test_laws;
use crate::snforge_cmd::test_output;
use crate::snforge_cmd::test_output::RunModel;
use crate::text;
use crate::text_laws;
use vstd::prelude::*;

verus! {

/// Whether a text holds no bar.
pub open spec fn is_barless(s: Seq<char>) -> bool {
    forall|i: int| 0 <= i < s.len() ==> #[trigger] s[i] != '│'
}

/// A row with two cells, and what follows them.
pub open spec fn row(left: Seq<char>, right: Seq<char>, rest: Seq<char>) -> Seq<char> {
    "│"@ + left + "│"@ + right + rest
}

/// Whether a line is a row whose first two cells hold `left` and `right`.
pub open spec fn is_row(line: Seq<char>, left: Seq<char>, right: Seq<char>) -> bool {
    exists|l: Seq<char>, r: Seq<char>, rest: Seq<char>|
        {
            &&& text::trimmed(line) == #[trigger] row(l, r, rest)
            &&& is_barless(l)
            &&& is_barless(r)
            &&& rest.len() == 0 || rest[0] == '│'
            &&& text::trimmed(l) == left
            &&& text::trimmed(r) == right
        }
}

/// Whether line `h` is the row that names the columns.
pub open spec fn is_header(lines: Seq<Seq<char>>, h: int) -> bool {
    exists|right: Seq<char>| #[trigger] is_row(lines[h], "Contract"@, right)
}

/// Whether line `i` is a row that names a contract and a function.
pub open spec fn names_function(lines: Seq<Seq<char>>, i: int) -> bool {
    exists|left: Seq<char>, right: Seq<char>|
        {
            &&& #[trigger] is_row(lines[i], left, right)
            &&& left.len() > 0
            &&& left != "Contract"@
            &&& right.len() > 0
        }
}

/// Whether line `i` is a row that names no columns, or no row.
pub open spec fn is_title(lines: Seq<Seq<char>>, i: int) -> bool {
    ||| !run_laws::begins_with(lines[i], '│')
    ||| exists|left: Seq<char>, right: Seq<char>| #[trigger]
        is_row(lines[i], left, right) && left != "Contract"@
}

/// Whether the rows that come next belong to entries: the columns were named, and then either
/// nothing but borders followed, or a contract and a function were named.
pub open spec fn is_ready(lines: Seq<Seq<char>>) -> bool {
    exists|h: int|
        {
            &&& 0 <= h < lines.len()
            &&& #[trigger] is_header(lines, h)
            &&& {
                ||| {
                    &&& forall|j: int| 0 <= j < h ==> #[trigger] is_title(lines, j)
                    &&& forall|j: int|
                        h < j < lines.len() ==> !run_laws::begins_with(#[trigger] lines[j], '│')
                }
                ||| exists|i: int| h < i < lines.len() && #[trigger] names_function(lines, i)
            }
        }
}

proof fn lemma_split_first(a: Seq<char>, b: Seq<char>)
    requires
        is_barless(a),
    ensures
        text::split_at_each(a.push('│') + b, '│') == seq![a] + text::split_at_each(b, '│'),
        text::split_at_each(b, '│').len() > 0,
{
    let s = a.push('│') + b;
    let n = a.len() as int;
    assert forall|i: int| 0 <= i < n implies s[i] != '│' by {
        assert(s[i] == a[i]);
    }
    assert(s[n] == '│');
    text::lemma_upto_at(s, '│', n);
    assert(s.take(n) =~= a);
    assert(s.skip(n + 1) =~= b);
}

proof fn lemma_row(line: Seq<char>, left: Seq<char>, right: Seq<char>)
    requires
        is_row(line, left, right),
    ensures
        gas::row_cells(line) == Some((left, right)),
{
    reveal_strlit("│");
    let (l, r, rest) = choose|l: Seq<char>, r: Seq<char>, rest: Seq<char>|
        {
            &&& text::trimmed(line) == #[trigger] row(l, r, rest)
            &&& is_barless(l)
            &&& is_barless(r)
            &&& rest.len() == 0 || rest[0] == '│'
            &&& text::trimmed(l) == left
            &&& text::trimmed(r) == right
        };
    let t = text::trimmed(line);
    let none = Seq::<char>::empty();
    assert(t =~= none.push('│') + (l.push('│') + (r + rest)));
    lemma_split_first(none, l.push('│') + (r + rest));
    lemma_split_first(l, r + rest);
    let cells = text::split_at_each(t, '│');
    let end = text::split_at_each(r + rest, '│');
    assert(end.len() > 0 && end[0] == r) by {
        if rest.len() == 0 {
            assert(r + rest =~= r);
            text::lemma_upto_at(r, '│', r.len() as int);
        } else {
            assert(r + rest =~= r.push('│') + rest.skip(1));
            lemma_split_first(r, rest.skip(1));
        }
    }
    assert(cells =~= seq![none] + (seq![l] + end));
    assert(cells[1] == l);
    assert(cells[2] == r);
}

proof fn lemma_read_push(a: Seq<Seq<char>>, line: Seq<char>)
    ensures
        gas::table_model(a.push(line)) == gas::table_model(a).with_line(line),
{
    assert(a.push(line).drop_last() =~= a);
}

/// Once the columns were named they stay named.
proof fn lemma_header(a: Seq<Seq<char>>, h: int)
    requires
        0 <= h < a.len(),
        is_header(a, h),
    ensures
        gas::table_model(a).past_header,
    decreases a.len(),
{
    let rest = a.drop_last();
    assert(a =~= rest.push(a.last()));
    lemma_read_push(rest, a.last());
    if h == a.len() - 1 {
        let right = choose|right: Seq<char>| #[trigger] is_row(a[h], "Contract"@, right);
        lemma_row(a[h], "Contract"@, right);
    } else {
        assert(rest[h] == a[h]);
        assert(is_header(rest, h));
        lemma_header(rest, h);
    }
}

/// Once a function was named there is always one.
proof fn lemma_function(a: Seq<Seq<char>>, h: int, i: int)
    requires
        0 <= h < i < a.len(),
        is_header(a, h),
        names_function(a, i),
    ensures
        gas::table_model(a).function.len() > 0,
    decreases a.len(),
{
    let rest = a.drop_last();
    assert(a =~= rest.push(a.last()));
    lemma_read_push(rest, a.last());
    assert(rest[h] == a[h]);
    assert(is_header(rest, h));
    lemma_header(rest, h);
    if i == a.len() - 1 {
        let (left, right) = choose|left: Seq<char>, right: Seq<char>|
            {
                &&& #[trigger] is_row(a[i], left, right)
                &&& left.len() > 0
                &&& left != "Contract"@
                &&& right.len() > 0
            };
        lemma_row(a[i], left, right);
    } else {
        assert(rest[i] == a[i]);
        assert(names_function(rest, i));
        lemma_function(rest, h, i);
    }
}

/// Nothing is read before the columns are named.
proof fn lemma_titles(a: Seq<Seq<char>>)
    requires
        forall|j: int| 0 <= j < a.len() ==> #[trigger] is_title(a, j),
    ensures
        gas::table_model(a) == TableModel::empty(),
    decreases a.len(),
{
    if a.len() > 0 {
        let rest = a.drop_last();
        let n = a.len() - 1;
        assert(a =~= rest.push(a.last()));
        assert forall|j: int| 0 <= j < rest.len() implies #[trigger] is_title(rest, j) by {
            assert(rest[j] == a[j]);
            assert(is_title(a, j));
        }
        lemma_titles(rest);
        lemma_read_push(rest, a.last());
        assert(is_title(a, n));
        if run_laws::begins_with(a[n], '│') {
            let (left, right) = choose|left: Seq<char>, right: Seq<char>| #[trigger]
                is_row(a[n], left, right) && left != "Contract"@;
            lemma_row(a[n], left, right);
        }
    }
}

proof fn lemma_borders_read(a: Seq<Seq<char>>, borders: Seq<Seq<char>>)
    requires
        forall|j: int|
            0 <= j < borders.len() ==> !run_laws::begins_with(#[trigger] borders[j], '│'),
    ensures
        gas::table_model(a + borders) == gas::table_model(a),
    decreases borders.len(),
{
    if borders.len() == 0 {
        assert(a + borders =~= a);
    } else {
        let less = borders.drop_last();
        assert forall|j: int| 0 <= j < less.len() implies !run_laws::begins_with(
            #[trigger] less[j],
            '│',
        ) by {
            assert(less[j] == borders[j]);
        }
        lemma_borders_read(a, less);
        assert(a + borders =~= (a + less).push(borders.last()));
        lemma_read_push(a + less, borders.last());
        assert(!run_laws::begins_with(borders[borders.len() - 1], '│'));
    }
}

proof fn lemma_ready(a: Seq<Seq<char>>)
    requires
        is_ready(a),
    ensures
        ({
            let m = gas::table_model(a);
            m.past_header && (m.stats.len() == 0 || m.function.len() > 0)
        }),
{
    let h = choose|h: int|
        {
            &&& 0 <= h < a.len()
            &&& #[trigger] is_header(a, h)
            &&& {
                ||| {
                    &&& forall|j: int| 0 <= j < h ==> #[trigger] is_title(a, j)
                    &&& forall|j: int|
                        h < j < a.len() ==> !run_laws::begins_with(#[trigger] a[j], '│')
                }
                ||| exists|i: int| h < i < a.len() && #[trigger] names_function(a, i)
            }
        };
    lemma_header(a, h);
    if exists|i: int| h < i < a.len() && #[trigger] names_function(a, i) {
        let i = choose|i: int| h < i < a.len() && #[trigger] names_function(a, i);
        lemma_function(a, h, i);
    } else {
        let titles = a.take(h);
        let borders = a.skip(h + 1);
        assert forall|j: int| 0 <= j < titles.len() implies #[trigger] is_title(titles, j) by {
            assert(titles[j] == a[j]);
            assert(is_title(a, j));
        }
        assert forall|j: int| 0 <= j < borders.len() implies !run_laws::begins_with(
            #[trigger] borders[j],
            '│',
        ) by {
            assert(borders[j] == a[h + 1 + j]);
        }
        lemma_titles(titles);
        lemma_read_push(titles, a[h]);
        let right = choose|right: Seq<char>| #[trigger] is_row(a[h], "Contract"@, right);
        lemma_row(a[h], "Contract"@, right);
        lemma_borders_read(titles.push(a[h]), borders);
        assert(titles.push(a[h]) + borders =~= a);
    }
}

/// A border, and any other line that does not begin with a bar, changes nothing.
pub proof fn law_borders_change_nothing(a: Seq<Seq<char>>, line: Seq<char>)
    requires
        !run_laws::begins_with(line, '│'),
    ensures
        gas::table_entries(a.push(line)) == gas::table_entries(a),
{
    lemma_read_push(a, line);
}

/// The row that names the columns changes nothing.
pub proof fn law_header_changes_nothing(a: Seq<Seq<char>>, line: Seq<char>, right: Seq<char>)
    requires
        is_row(line, "Contract"@, right),
    ensures
        gas::table_entries(a.push(line)) == gas::table_entries(a),
{
    lemma_read_push(a, line);
    lemma_row(line, "Contract"@, right);
}

/// What is shown of a figure: its name and its value with a colon between.
pub open spec fn stat(pair: (Seq<char>, Seq<char>)) -> Seq<char> {
    pair.0 + ":"@ + pair.1
}

/// Whether a line is the row of a figure: an empty cell, then the figure's name and its value.
pub open spec fn is_stat_row(line: Seq<char>, pair: (Seq<char>, Seq<char>)) -> bool {
    &&& gas_laws::is_word(pair.0)
    &&& gas_laws::is_word(pair.1)
    &&& is_row(line, seq![], pair.0 + ": "@ + pair.1)
}

/// Whether the lines are the rows of the given figures.
pub open spec fn are_stat_rows(
    lines: Seq<Seq<char>>,
    pairs: Seq<(Seq<char>, Seq<char>)>,
) -> bool {
    &&& lines.len() == pairs.len()
    &&& forall|i: int| 0 <= i < lines.len() ==> is_stat_row(#[trigger] lines[i], pairs[i])
}

proof fn lemma_stat(pair: (Seq<char>, Seq<char>))
    requires
        gas_laws::is_word(pair.0),
        gas_laws::is_word(pair.1),
    ensures
        text::replaced(pair.0 + ": "@ + pair.1, ": "@, ":"@) == stat(pair),
{
    reveal_strlit(": ");
    reveal_strlit(":");
    let (k, v) = pair;
    assert(k + ": "@ + v =~= k + (": "@ + v));
    text_laws::lemma_replaced_over(k, ": "@ + v, ": "@, ":"@);
    gas_laws::lemma_replaced_first(": "@, v, ":"@);
    let none = Seq::<char>::empty();
    text_laws::lemma_replaced_over(v, none, ": "@, ":"@);
    assert(v + none =~= v);
    assert(text::replaced(none, ": "@, ":"@) =~= none);
    assert(k + (":"@ + v) =~= stat(pair));
}

proof fn lemma_stats_read(
    a: Seq<Seq<char>>,
    rows: Seq<Seq<char>>,
    pairs: Seq<(Seq<char>, Seq<char>)>,
)
    requires
        are_stat_rows(rows, pairs),
        gas::table_model(a).past_header,
    ensures
        gas::table_model(a + rows) == (TableModel {
            stats: gas::table_model(a).stats + pairs.map_values(
                |p: (Seq<char>, Seq<char>)| stat(p),
            ),
            ..gas::table_model(a)
        }),
    decreases rows.len(),
{
    reveal_strlit(": ");
    reveal_strlit("Contract");
    let f = |p: (Seq<char>, Seq<char>)| stat(p);
    let m = gas::table_model(a);
    if rows.len() == 0 {
        assert(a + rows =~= a);
        assert(m.stats + pairs.map_values(f) =~= m.stats);
    } else {
        let less = rows.drop_last();
        let line = rows.last();
        let pair = pairs.last();
        assert forall|i: int| 0 <= i < less.len() implies is_stat_row(
            #[trigger] less[i],
            pairs.drop_last()[i],
        ) by {
            assert(less[i] == rows[i]);
        }
        lemma_stats_read(a, less, pairs.drop_last());
        assert(a + rows =~= (a + less).push(line));
        lemma_read_push(a + less, line);
        assert(is_stat_row(rows[rows.len() - 1], pairs[rows.len() - 1]));
        lemma_row(line, seq![], pair.0 + ": "@ + pair.1);
        lemma_stat(pair);
        assert(Seq::<char>::empty() != "Contract"@) by {
            assert("Contract"@.len() == 8);
        }
        assert((m.stats + pairs.drop_last().map_values(f)).push(stat(pair)) =~= m.stats
            + pairs.map_values(f));
    }
}

/// A row that names a contract and a function, and the rows of its figures after it, add one entry
/// to those before it: the contract, the function, and every figure, in order.
pub proof fn law_entry_added(
    a: Seq<Seq<char>>,
    line: Seq<char>,
    contract: Seq<char>,
    function: Seq<char>,
    rows: Seq<Seq<char>>,
    pairs: Seq<(Seq<char>, Seq<char>)>,
)
    requires
        is_ready(a),
        is_row(line, contract, function),
        contract.len() > 0,
        contract != "Contract"@,
        function.len() > 0,
        are_stat_rows(rows, pairs),
        rows.len() > 0,
    ensures
        gas::table_entries(a.push(line) + rows) == gas::table_entries(a).push(
            contract + "::"@ + function + ": "@ + text::joined(
                pairs.map_values(|p: (Seq<char>, Seq<char>)| stat(p)),
                " "@,
            ),
        ),
{
    lemma_ready(a);
    lemma_read_push(a, line);
    lemma_row(line, contract, function);
    lemma_stats_read(a.push(line), rows, pairs);
    let f = |p: (Seq<char>, Seq<char>)| stat(p);
    let m = gas::table_model(a.push(line));
    assert(m.stats.len() == 0);
    assert(m.stats + pairs.map_values(f) =~= pairs.map_values(f));
}

/// Reading a further line never takes an entry away, nor one that the run holds at its end.
pub proof fn law_entries_stay(a: Seq<Seq<char>>, line: Seq<char>)
    ensures
        run_laws::model_of(a).gas_entries.is_prefix_of(
            run_laws::model_of(a.push(line)).gas_entries,
        ),
{
    assert(a.push(line).drop_last() =~= a);
    let m = test_output::scanned(a);
    let now = m.gas_entries;
    let then = test_output::scanned(a.push(line)).gas_entries;
    if then != now {
        let t = m.table.push(line);
        if then == now + gas::table_entries(t) {
            assert(then.subrange(0, now.len() as int) =~= now);
        } else {
            assert(then == now + gas::table_entries(m.table));
            assert(then.subrange(0, now.len() as int) =~= now);
        }
    } else {
        assert(now.subrange(0, now.len() as int) =~= now);
    }
}

/// Whether a line may stand between the borders of a table.
pub open spec fn is_inner(line: Seq<char>) -> bool {
    &&& !run_laws::tells_compiling(line)
    &&& !run_laws::begins_warning(line)
    &&& !run_laws::begins_with(line, '╭')
    &&& !run_laws::begins_with(line, '╰')
    &&& !run_laws::tells_fail(line)
    &&& !run_laws::heads_data(line)
    &&& !run_laws::sums_up_run(line)
    &&& !run_laws::sums_up_package(line)
}

proof fn lemma_inner_read(a: Seq<Seq<char>>, rows: Seq<Seq<char>>)
    requires
        forall|i: int| 0 <= i < rows.len() ==> is_inner(#[trigger] rows[i]),
        test_output::scanned(a).table.len() > 0,
        !test_output::scanned(a).in_warning,
    ensures
        test_output::scanned(a + rows) == (RunModel {
            table: test_output::scanned(a).table + rows,
            ..test_output::scanned(a)
        }),
    decreases rows.len(),
{
    let m = test_output::scanned(a);
    if rows.len() == 0 {
        assert(a + rows =~= a);
        assert(m.table + rows =~= m.table);
    } else {
        let less = rows.drop_last();
        let line = rows.last();
        assert forall|i: int| 0 <= i < less.len() implies is_inner(#[trigger] less[i]) by {
            assert(less[i] == rows[i]);
        }
        lemma_inner_read(a, less);
        assert(a + rows =~= (a + less).push(line));
        run_laws::lemma_scan_push(a + less, line);
        assert(is_inner(rows[rows.len() - 1]));
        run_laws::lemma_kinds(line);
        assert((m.table + less).push(line) =~= m.table + rows);
    }
}

proof fn lemma_table_read(
    a: Seq<Seq<char>>,
    top: Seq<char>,
    rows: Seq<Seq<char>>,
    bottom: Seq<char>,
)
    requires
        run_laws::begins_with(top, '╭'),
        !run_laws::is_indented(top),
        forall|i: int| 0 <= i < rows.len() ==> is_inner(#[trigger] rows[i]),
        run_laws::begins_with(bottom, '╰'),
    ensures
        test_output::scanned((a.push(top) + rows).push(bottom)) == (RunModel {
            gas_entries: test_output::scanned(a).gas_entries + gas::table_entries(
                (seq![top] + rows).push(bottom),
            ),
            table: seq![],
            in_warning: false,
            ..test_output::scanned(a)
        }),
{
    let m = test_output::scanned(a);
    run_laws::lemma_scan_push(a, top);
    run_laws::lemma_kinds(top);
    run_laws::lemma_kinds(bottom);
    run_laws::lemma_border(top);
    run_laws::lemma_border(bottom);
    let o = test_output::scanned(a.push(top));
    assert(o == RunModel { table: seq![top], in_warning: false, ..m });
    lemma_inner_read(a.push(top), rows);
    run_laws::lemma_scan_push(a.push(top) + rows, bottom);
}

/// A table from its top border to its bottom border adds its entries to those before it, whatever
/// stands before it, and changes nothing else.
pub proof fn law_table_added(
    a: Seq<Seq<char>>,
    top: Seq<char>,
    rows: Seq<Seq<char>>,
    bottom: Seq<char>,
)
    requires
        run_laws::begins_with(top, '╭'),
        !run_laws::is_indented(top),
        forall|i: int| 0 <= i < rows.len() ==> is_inner(#[trigger] rows[i]),
        run_laws::begins_with(bottom, '╰'),
    ensures
        ({
            let before = run_laws::model_of(a);
            let m = run_laws::model_of((a.push(top) + rows).push(bottom));
            &&& m.gas_entries == before.gas_entries + gas::table_entries(
                (seq![top] + rows).push(bottom),
            )
            &&& m.failures == before.failures
            &&& m.details == before.details
            &&& m.package_summaries == before.package_summaries
            &&& m.global_summary == before.global_summary
            &&& m.packages == before.packages
        }),
{
    lemma_table_read(a, top, rows, bottom);
}

proof fn lemma_entries_stay(lines: Seq<Seq<char>>, i: int, j: int)
    requires
        0 <= i <= j <= lines.len(),
    ensures
        ({
            let now = run_laws::model_of(lines.take(i)).gas_entries;
            let then = run_laws::model_of(lines.take(j)).gas_entries;
            &&& now.len() <= then.len()
            &&& forall|k: int| 0 <= k < now.len() ==> #[trigger] now[k] == then[k]
        }),
    decreases j - i,
{
    if i < j {
        lemma_entries_stay(lines, i, j - 1);
        let a = lines.take(j - 1);
        assert(lines.take(j) =~= a.push(lines[j - 1]));
        law_entries_stay(a, lines[j - 1]);
        let mid = run_laws::model_of(a).gas_entries;
        let then = run_laws::model_of(lines.take(j)).gas_entries;
        assert forall|k: int| 0 <= k < mid.len() implies mid[k] == #[trigger] then[k] by {
            assert(mid[k] == then.subrange(0, mid.len() as int)[k]);
        }
    }
}

/// No entry of a table is lost: each that its lines give, from its top border to its bottom border,
/// stands in the view, wherever in the output the table stands. Only white space at its ends may
/// be missing.
pub proof fn law_tables_shown(output: Seq<char>, s: int, e: int, k: int)
    requires
        ({
            let lines = text::lines_of(output);
            &&& 0 <= s < e < lines.len()
            &&& run_laws::begins_with(lines[s], '╭')
            &&& !run_laws::is_indented(lines[s])
            &&& forall|i: int| s < i < e ==> is_inner(#[trigger] lines[i])
            &&& run_laws::begins_with(lines[e], '╰')
            &&& 0 <= k < gas::table_entries(lines.subrange(s, e + 1)).len()
        }),
    ensures
        ({
            let entry = gas::table_entries(text::lines_of(output).subrange(s, e + 1))[k];
            &&& test_output::run_model(output).gas_entries.contains(entry)
            &&& text::has_text(test_laws::view_of(output), text::trimmed(entry))
        }),
{
    let lines = text::lines_of(output);
    let a = lines.take(s);
    let rows = lines.subrange(s + 1, e);
    assert forall|i: int| 0 <= i < rows.len() implies is_inner(#[trigger] rows[i]) by {
        assert(rows[i] == lines[s + 1 + i]);
    }
    law_table_added(a, lines[s], rows, lines[e]);
    assert((a.push(lines[s]) + rows).push(lines[e]) =~= lines.take(e + 1));
    assert((seq![lines[s]] + rows).push(lines[e]) =~= lines.subrange(s, e + 1));
    lemma_entries_stay(lines, e + 1, lines.len() as int);
    assert(lines.take(lines.len() as int) =~= lines);
    let entries = gas::table_entries(lines.subrange(s, e + 1));
    let n = run_laws::model_of(a).gas_entries.len();
    let then = run_laws::model_of(lines.take(e + 1)).gas_entries;
    let m = test_output::run_model(output);
    assert(then[n + k] == entries[k]);
    assert(m.gas_entries[n + k] == entries[k]);
    test_laws::law_gas_entries_shown(output, n + k);
}

/// A table that has no bottom border yet gives no entries. A failed test after it ends it: its
/// rows give their entries all the same.
pub proof fn law_open_table(
    a: Seq<Seq<char>>,
    top: Seq<char>,
    rows: Seq<Seq<char>>,
    fail: Seq<char>,
)
    requires
        run_laws::begins_with(top, '╭'),
        !run_laws::is_indented(top),
        forall|i: int| 0 <= i < rows.len() ==> is_inner(#[trigger] rows[i]),
        run_laws::tells_fail(fail),
    ensures
        run_laws::model_of(a.push(top) + rows).gas_entries == run_laws::model_of(a).gas_entries,
        run_laws::model_of((a.push(top) + rows).push(fail)).gas_entries == run_laws::model_of(
            a,
        ).gas_entries + gas::table_entries(seq![top] + rows),
        run_laws::model_of((a.push(top) + rows).push(fail)).failures == run_laws::model_of(
            a,
        ).failures.push(fail),
{
    let m = test_output::scanned(a);
    run_laws::lemma_scan_push(a, top);
    run_laws::lemma_kinds(top);
    run_laws::lemma_border(top);
    let o = test_output::scanned(a.push(top));
    assert(o == RunModel { table: seq![top], in_warning: false, ..m });
    lemma_inner_read(a.push(top), rows);
    run_laws::lemma_scan_push(a.push(top) + rows, fail);
    run_laws::lemma_kinds(fail);
    run_laws::lemma_no_warning(fail);
}

/// Whether two runs hold the same, apart from the entries of tables.
pub open spec fn same_but_entries(m: RunModel, n: RunModel) -> bool {
    &&& m.details == n.details
    &&& m.failures == n.failures
    &&& m.package_summaries == n.package_summaries
    &&& m.global_summary == n.global_summary
    &&& m.packages == n.packages
}

/// Whether two runs are the same, apart from the entries of tables.
spec fn alike(m: RunModel, n: RunModel) -> bool {
    n == RunModel { gas_entries: n.gas_entries, ..m }
}

proof fn lemma_alike_settled(m: RunModel, n: RunModel)
    requires
        alike(m, n),
    ensures
        alike(m.data_closed(), n.data_closed()),
        alike(m.settled(), n.settled()),
{
}

proof fn lemma_alike_plain(m: RunModel, n: RunModel, line: Seq<char>)
    requires
        alike(m, n),
    ensures
        alike(m.with_plain(line), n.with_plain(line)),
{
    lemma_alike_settled(m, n);
}

proof fn lemma_alike_line(m: RunModel, n: RunModel, line: Seq<char>)
    requires
        alike(m, n),
    ensures
        alike(m.with_line(line), n.with_line(line)),
{
    let c = RunModel { in_warning: false, ..m };
    let d = RunModel { in_warning: false, ..n };
    assert(alike(c, d));
    lemma_alike_plain(c, d, line);
    let e = c.table_closed();
    let f = d.table_closed();
    assert(alike(e, f));
    lemma_alike_plain(e, f, line);
}

proof fn lemma_alike(a: Seq<Seq<char>>, b: Seq<Seq<char>>, rest: Seq<Seq<char>>)
    requires
        alike(test_output::scanned(a), test_output::scanned(b)),
    ensures
        alike(test_output::scanned(a + rest), test_output::scanned(b + rest)),
    decreases rest.len(),
{
    if rest.len() == 0 {
        assert(a + rest =~= a);
        assert(b + rest =~= b);
    } else {
        let less = rest.drop_last();
        lemma_alike(a, b, less);
        assert(a + rest =~= (a + less).push(rest.last()));
        assert(b + rest =~= (b + less).push(rest.last()));
        run_laws::lemma_scan_push(a + less, rest.last());
        run_laws::lemma_scan_push(b + less, rest.last());
        lemma_alike_line(
            test_output::scanned(a + less),
            test_output::scanned(b + less),
            rest.last(),
        );
    }
}

/// A table changes nothing but the entries of tables, whatever follows it, after lines without
/// warnings and tables.
pub proof fn law_table_changes_only_entries(
    a: Seq<Seq<char>>,
    top: Seq<char>,
    rows: Seq<Seq<char>>,
    bottom: Seq<char>,
    rest: Seq<Seq<char>>,
)
    requires
        run_laws::is_bare(a),
        run_laws::begins_with(top, '╭'),
        !run_laws::is_indented(top),
        forall|i: int| 0 <= i < rows.len() ==> is_inner(#[trigger] rows[i]),
        run_laws::begins_with(bottom, '╰'),
    ensures
        same_but_entries(
            run_laws::model_of((a.push(top) + rows).push(bottom) + rest),
            run_laws::model_of(a + rest),
        ),
{
    let b = (a.push(top) + rows).push(bottom);
    run_laws::lemma_bare(a);
    lemma_table_read(a, top, rows, bottom);
    assert(test_output::scanned(a).table =~= Seq::<Seq<char>>::empty());
    lemma_alike(b, a, rest);
    lemma_alike_settled(test_output::scanned(b + rest), test_output::scanned(a + rest));
}

/// Whether a line neither names a contract nor names the columns: it is no row, or its first cell
/// is empty.
pub open spec fn names_nothing(line: Seq<char>) -> bool {
    ||| !run_laws::begins_with(line, '│')
    ||| exists|right: Seq<char>| #[trigger] is_row(line, seq![], right)
}

proof fn lemma_function_stays(a: Seq<Seq<char>>, i: int, left: Seq<char>, right: Seq<char>)
    requires
        0 < i < a.len(),
        gas::table_model(a.take(i)).past_header,
        is_row(a[i], left, right),
        left.len() > 0,
        left != "Contract"@,
        right.len() > 0,
        forall|j: int| i < j < a.len() ==> names_nothing(#[trigger] a[j]),
    ensures
        gas::table_model(a).function == right,
        gas::table_model(a).past_header,
    decreases a.len(),
{
    reveal_strlit("Contract");
    let rest = a.drop_last();
    let n = a.len() - 1;
    assert(a =~= rest.push(a.last()));
    lemma_read_push(rest, a.last());
    if i == n {
        assert(a.take(i) =~= rest);
        lemma_row(a[i], left, right);
    } else {
        assert(rest.take(i) =~= a.take(i));
        assert(rest[i] == a[i]);
        assert forall|j: int| i < j < rest.len() implies names_nothing(#[trigger] rest[j]) by {
            assert(rest[j] == a[j]);
        }
        lemma_function_stays(rest, i, left, right);
        assert(names_nothing(a[n]));
        if run_laws::begins_with(a[n], '│') {
            let r = choose|r: Seq<char>| #[trigger] is_row(a[n], seq![], r);
            lemma_row(a[n], seq![], r);
            assert(Seq::<char>::empty() != "Contract"@) by {
                assert("Contract"@.len() == 8);
            }
        }
    }
}

/// A row that names a contract and no function, and the rows of its figures after it, add one
/// entry for the function that was named last.
pub proof fn law_entry_of_last_function(
    a: Seq<Seq<char>>,
    h: int,
    i: int,
    left: Seq<char>,
    function: Seq<char>,
    line: Seq<char>,
    contract: Seq<char>,
    rows: Seq<Seq<char>>,
    pairs: Seq<(Seq<char>, Seq<char>)>,
)
    requires
        0 <= h < i < a.len(),
        is_header(a, h),
        is_row(a[i], left, function),
        left.len() > 0,
        left != "Contract"@,
        function.len() > 0,
        forall|j: int| i < j < a.len() ==> names_nothing(#[trigger] a[j]),
        is_row(line, contract, seq![]),
        contract.len() > 0,
        contract != "Contract"@,
        are_stat_rows(rows, pairs),
        rows.len() > 0,
    ensures
        gas::table_entries(a.push(line) + rows) == gas::table_entries(a).push(
            contract + "::"@ + function + ": "@ + text::joined(
                pairs.map_values(|p: (Seq<char>, Seq<char>)| stat(p)),
                " "@,
            ),
        ),
{
    let first = a.take(i);
    assert(first[h] == a[h]);
    assert(is_header(first, h));
    lemma_header(first, h);
    lemma_function_stays(a, i, left, function);
    lemma_read_push(a, line);
    lemma_row(line, contract, seq![]);
    lemma_stats_read(a.push(line), rows, pairs);
    let f = |p: (Seq<char>, Seq<char>)| stat(p);
    let m = gas::table_model(a.push(line));
    assert(m.stats.len() == 0);
    assert(m.stats + pairs.map_values(f) =~= pairs.map_values(f));
}

/// A table whose columns are not named gives no entries.
pub proof fn law_no_header_no_entries(a: Seq<Seq<char>>)
    requires
        forall|j: int| 0 <= j < a.len() ==> #[trigger] is_title(a, j),
    ensures
        gas::table_entries(a).len() == 0,
{
    lemma_titles(a);
}

} // verus!
