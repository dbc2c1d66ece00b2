//! The output of `snforge test`.
use crate::snforge_cmd::gas;
use crate::snforge_cmd::summary;
use crate::strings;
use crate::text;
use vstd::prelude::*;
use vstd::string::*;

verus! {

/// Whether a line tells of compiling, fetching or finishing.
pub open spec fn compilation_noise(line: Seq<char>) -> bool {
    let start = text::trimmed_start(line);
    ||| "Compiling "@.is_prefix_of(start)
    ||| "Checking "@.is_prefix_of(start)
    ||| "Blocking waiting for file lock"@.is_prefix_of(start)
    ||| "Downloading "@.is_prefix_of(start)
    ||| "Downloaded "@.is_prefix_of(start)
    ||| "Locking "@.is_prefix_of(start)
    ||| "Updating "@.is_prefix_of(start)
    ||| "Finished "@.is_prefix_of(start)
}

/// Whether a line begins a compiler warning.
pub open spec fn warning_start(line: Seq<char>) -> bool {
    "warn["@.is_prefix_of(line) || "warn: "@.is_prefix_of(line)
}

/// Whether a line that follows a compiler warning belongs to it.
pub open spec fn warning_detail(line: Seq<char>) -> bool {
    let t = text::trimmed(line);
    ||| "-->"@.is_prefix_of(t)
    ||| "    "@.is_prefix_of(line)
    ||| line.len() > 0 && line[0] == '\t'
    ||| t.len() > 0 && (t[0] == '=' || t[0] == '|' || t[0] == '^' || t[0] == '-')
}

/// What a line outside warnings and tables is.
#[derive(Debug, Clone, Copy, PartialEq, Eq, Structural)]
pub enum RunLine {
    /// Progress, an ignored test, or figures that stand elsewhere too.
    Dropped,
    /// The resources that a test used.
    Resource,
    /// The tests of a package were collected.
    Collected,
    /// A test passed.
    Pass,
    /// A test failed.
    Fail,
    /// The heading of what a failed test left.
    FailureData,
    /// Anything else.
    Other,
}

/// What a line outside warnings and tables is; the first kind that fits.
pub open spec fn line_kind(line: Seq<char>) -> RunLine {
    let t = text::trimmed(line);
    if "sierra gas:"@.is_prefix_of(t) {
        RunLine::Dropped
    } else if "syscalls:"@.is_prefix_of(t) || "builtins:"@.is_prefix_of(t)
        || "l2_l1_message_sizes:"@.is_prefix_of(t) {
        RunLine::Resource
    } else if "No contract gas usage data"@.is_prefix_of(t) {
        RunLine::Dropped
    } else if "Running "@.is_prefix_of(t) && text::has_text(t, "test(s) from"@) {
        RunLine::Dropped
    } else if "Collected "@.is_prefix_of(t) && text::has_text(t, "test(s) from"@) {
        RunLine::Collected
    } else if "[PASS]"@.is_prefix_of(t) {
        RunLine::Pass
    } else if "[IGNORED]"@.is_prefix_of(t) {
        RunLine::Dropped
    } else if "[FAIL]"@.is_prefix_of(t) {
        RunLine::Fail
    } else if t == "Failure data:"@ {
        RunLine::FailureData
    } else {
        RunLine::Other
    }
}

/// Whether a line sums up the whole run.
pub open spec fn run_summary_line(line: Seq<char>) -> bool {
    "Tests summary:"@.is_prefix_of(text::trimmed(line))
}

/// Whether a line sums up the tests of a package.
pub open spec fn package_summary_line(line: Seq<char>) -> bool {
    let t = text::trimmed(line);
    "Tests:"@.is_prefix_of(t) && text::has_text(t, "passed"@)
}

/// Whether a line cannot belong to a table: it tells of a failure, or sums up tests.
pub open spec fn breaks_table(line: Seq<char>) -> bool {
    ||| line_kind(line) is Fail
    ||| line_kind(line) is FailureData
    ||| run_summary_line(line)
    ||| package_summary_line(line)
}

/// What has been read of a test run's output.
#[verifier::ext_equal]
pub struct RunModel {
    /// `[PASS]` lines with figures, and resource lines, compressed.
    pub details: Seq<Seq<char>>,
    /// The entries of gas report tables.
    pub gas_entries: Seq<Seq<char>>,
    /// The failures that are complete.
    pub failures: Seq<Seq<char>>,
    /// The summary lines of packages.
    pub package_summaries: Seq<Seq<char>>,
    /// The last summary line of the whole run.
    pub global_summary: Option<Seq<char>>,
    /// How many packages had their tests collected.
    pub packages: nat,
    /// The last `[FAIL]` line, while what its test left is awaited.
    pub pending: Option<Seq<char>>,
    /// The lines of the failure data that are not complete.
    pub data: Seq<Seq<char>>,
    /// Whether the lines that come next may belong to a compiler warning.
    pub in_warning: bool,
    /// The lines of the table that is not complete.
    pub table: Seq<Seq<char>>,
}

impl RunModel {
    /// Nothing read yet.
    pub open spec fn empty() -> RunModel {
        RunModel {
            details: seq![],
            gas_entries: seq![],
            failures: seq![],
            package_summaries: seq![],
            global_summary: None,
            packages: 0,
            pending: None,
            data: seq![],
            in_warning: false,
            table: seq![],
        }
    }

    /// The failure data that was read, if any, is complete. It belongs to the pending `[FAIL]`
    /// line, if there is one.
    pub open spec fn data_closed(self) -> RunModel {
        if self.data.len() == 0 {
            self
        } else {
            let block = match self.pending {
                None => self.data,
                Some(fail) => seq![fail] + self.data,
            };
            RunModel {
                failures: self.failures.push(text::joined(block, "\n"@)),
                pending: None,
                data: seq![],
                ..self
            }
        }
    }

    /// Nothing more comes for the pending `[FAIL]` line.
    pub open spec fn settled(self) -> RunModel {
        let m = self.data_closed();
        match m.pending {
            None => m,
            Some(fail) => RunModel { failures: m.failures.push(fail), pending: None, ..m },
        }
    }

    /// A compressed line is added to the details, if there is one.
    pub open spec fn with_detail(self, detail: Option<Seq<char>>) -> RunModel {
        match detail {
            None => self,
            Some(d) => RunModel { details: self.details.push(d), ..self },
        }
    }

    /// A line of no other kind: failure data, which a blank line ends; or a summary.
    pub open spec fn with_other(self, line: Seq<char>) -> RunModel {
        if self.data.len() > 0 {
            if text::blank(line) {
                self.data_closed()
            } else {
                RunModel { data: self.data.push(line), ..self }
            }
        } else if run_summary_line(line) {
            RunModel { global_summary: Some(line), ..self }
        } else if package_summary_line(line) {
            RunModel { package_summaries: self.package_summaries.push(line), ..self }
        } else {
            self
        }
    }

    /// A line outside warnings and tables.
    pub open spec fn with_plain(self, line: Seq<char>) -> RunModel {
        match line_kind(line) {
            RunLine::Dropped => self,
            RunLine::Resource => self.with_detail(gas::resource_text(line)),
            RunLine::Collected => RunModel { packages: self.packages + 1, ..self },
            RunLine::Pass => self.data_closed().with_detail(gas::pass_gas(text::trimmed(line))),
            RunLine::Fail => RunModel { pending: Some(line), ..self.settled() },
            RunLine::FailureData => RunModel { data: self.data.push(line), ..self },
            RunLine::Other => self.with_other(line),
        }
    }

    /// The lines of a table were read; what they tell becomes entries.
    pub open spec fn table_closed(self) -> RunModel {
        RunModel {
            gas_entries: self.gas_entries + gas::table_entries(self.table),
            table: seq![],
            ..self
        }
    }

    /// A line outside warnings. A table reaches from its top border to its bottom border, or to
    /// a line that cannot belong to it.
    pub open spec fn with_text(self, line: Seq<char>) -> RunModel {
        if gas::table_start(line) {
            RunModel { table: seq![line], ..self }
        } else if self.table.len() == 0 {
            self.with_plain(line)
        } else if gas::table_end(line) {
            RunModel { table: self.table.push(line), ..self }.table_closed()
        } else if breaks_table(line) {
            self.table_closed().with_plain(line)
        } else {
            RunModel { table: self.table.push(line), ..self }
        }
    }

    /// The next line is read.
    pub open spec fn with_line(self, line: Seq<char>) -> RunModel {
        if compilation_noise(line) {
            RunModel { in_warning: false, ..self }
        } else if warning_start(line) {
            RunModel { in_warning: true, ..self }
        } else if self.in_warning && text::blank(line) {
            RunModel { in_warning: false, ..self }
        } else if self.in_warning && warning_detail(line) {
            self
        } else {
            RunModel { in_warning: false, ..self }.with_text(line)
        }
    }
}

/// What the lines of an output hold, before the last failure is settled.
pub open spec fn scanned(lines: Seq<Seq<char>>) -> RunModel
    decreases lines.len(),
{
    if lines.len() == 0 {
        RunModel::empty()
    } else {
        scanned(lines.drop_last()).with_line(lines.last())
    }
}

/// What a whole output holds.
pub open spec fn run_model(output: Seq<char>) -> RunModel {
    scanned(text::lines_of(output)).settled()
}

/// The summary lines: those of the packages, then that of the whole run.
pub open spec fn summary_lines(m: RunModel) -> Seq<char> {
    text::each_ended(m.package_summaries, "\n"@) + (match m.global_summary {
        None => seq![],
        Some(line) => line + "\n"@,
    })
}

/// The entries of gas report tables, under a heading.
pub open spec fn gas_section(entries: Seq<Seq<char>>) -> Seq<char> {
    if entries.len() == 0 {
        seq![]
    } else {
        "Gas report:\n"@ + text::each_ended(entries.map_values(|e: Seq<char>| "  "@ + e), "\n"@)
    }
}

/// The compact view of a test run, given its compact line, if it has one. The summary lines
/// stand in the view where the compact line does not.
pub open spec fn run_report(m: RunModel, compact: Option<Seq<char>>) -> Seq<char> {
    if m.failures.len() > 0 {
        text::trimmed(
            text::each_ended(m.failures, "\n\n"@) + gas_section(m.gas_entries) + (
            if m.gas_entries.len() > 0 {
                "\n"@
            } else {
                seq![]
            }) + summary_lines(m),
        )
    } else if m.details.len() == 0 && m.gas_entries.len() == 0 && compact is Some {
        compact->0
    } else {
        text::trimmed(
            text::each_ended(m.details, "\n"@) + gas_section(m.gas_entries) + (match compact {
                None => summary_lines(m),
                Some(line) => line + "\n"@,
            }),
        )
    }
}

/// The compact line for a run, if it has one.
pub open spec fn run_summary(m: RunModel) -> Option<Seq<char>> {
    summary::compact_summary(
        summary::global_counts(m.global_summary),
        summary::package_counts(m.package_summaries),
        m.packages,
    )
}

/// Whether the totals, where a view needs them, can be held.
pub open spec fn countable(m: RunModel) -> bool {
    m.failures.len() == 0 ==> summary::countable(
        summary::global_counts(m.global_summary),
        summary::package_counts(m.package_summaries),
    )
}

/// Returns true if the line is compilation/infrastructure noise to strip.
pub fn is_compilation_noise(line: &str) -> (r: bool)
    ensures
        r == compilation_noise(line@),
{
    let start = strings::trim_start(line);
    strings::starts_with(start, "Compiling ") || strings::starts_with(start, "Checking ")
        || strings::starts_with(start, "Blocking waiting for file lock") || strings::starts_with(
        start,
        "Downloading ",
    ) || strings::starts_with(start, "Downloaded ") || strings::starts_with(start, "Locking ")
        || strings::starts_with(start, "Updating ") || strings::starts_with(start, "Finished ")
}

/// Whether a line that follows a compiler warning belongs to it.
fn is_warning_detail(line: &str) -> (r: bool)
    ensures
        r == warning_detail(line@),
{
    let t = strings::trim(line);
    strings::starts_with(t, "-->") || strings::starts_with(line, "    ")
        || strings::starts_with_char(line, '\t') || strings::starts_with_char(t, '=')
        || strings::starts_with_char(t, '|') || strings::starts_with_char(t, '^')
        || strings::starts_with_char(t, '-')
}

/// What a line outside warnings and tables is.
pub fn classify(line: &str) -> (r: RunLine)
    ensures
        r == line_kind(line@),
{
    let t = strings::trim(line);
    if strings::starts_with(t, "sierra gas:") {
        RunLine::Dropped
    } else if strings::starts_with(t, "syscalls:") || strings::starts_with(t, "builtins:")
        || strings::starts_with(t, "l2_l1_message_sizes:") {
        RunLine::Resource
    } else if strings::starts_with(t, "No contract gas usage data") {
        RunLine::Dropped
    } else if strings::starts_with(t, "Running ") && strings::contains(t, "test(s) from") {
        RunLine::Dropped
    } else if strings::starts_with(t, "Collected ") && strings::contains(t, "test(s) from") {
        RunLine::Collected
    } else if strings::starts_with(t, "[PASS]") {
        RunLine::Pass
    } else if strings::starts_with(t, "[IGNORED]") {
        RunLine::Dropped
    } else if strings::starts_with(t, "[FAIL]") {
        RunLine::Fail
    } else if strings::same_text(t, "Failure data:") {
        RunLine::FailureData
    } else {
        RunLine::Other
    }
}

/// Whether a line sums up the whole run.
fn is_run_summary(line: &str) -> (r: bool)
    ensures
        r == run_summary_line(line@),
{
    strings::starts_with(strings::trim(line), "Tests summary:")
}

/// Whether a line sums up the tests of a package.
fn is_package_summary(line: &str) -> (r: bool)
    ensures
        r == package_summary_line(line@),
{
    let t = strings::trim(line);
    strings::starts_with(t, "Tests:") && strings::contains(t, "passed")
}

/// Whether a line cannot belong to a table.
fn is_table_break(line: &str) -> (r: bool)
    ensures
        r == breaks_table(line@),
{
    match classify(line) {
        RunLine::Fail | RunLine::FailureData => true,
        _ => is_run_summary(line) || is_package_summary(line),
    }
}

/// What has been read of a test run's output.
#[derive(Debug)]
pub struct RunScan {
    pub details: Vec<String>,
    pub gas_entries: Vec<String>,
    pub failures: Vec<String>,
    pub package_summaries: Vec<String>,
    pub global_summary: Option<String>,
    pub packages: usize,
    pub pending: Option<String>,
    pub data: Vec<String>,
    pub in_warning: bool,
    pub table: Vec<String>,
}

impl View for RunScan {
    type V = RunModel;

    open spec fn view(&self) -> RunModel {
        RunModel {
            details: text::views(self.details@),
            gas_entries: text::views(self.gas_entries@),
            failures: text::views(self.failures@),
            package_summaries: text::views(self.package_summaries@),
            global_summary: text::opt_view(self.global_summary),
            packages: self.packages as nat,
            pending: text::opt_view(self.pending),
            data: text::views(self.data@),
            in_warning: self.in_warning,
            table: text::views(self.table@),
        }
    }
}

impl RunScan {
    /// Nothing read yet.
    fn new() -> (r: RunScan)
        ensures
            r@ == RunModel::empty(),
    {
        RunScan {
            details: Vec::new(),
            gas_entries: Vec::new(),
            failures: Vec::new(),
            package_summaries: Vec::new(),
            global_summary: None,
            packages: 0,
            pending: None,
            data: Vec::new(),
            in_warning: false,
            table: Vec::new(),
        }
    }

    /// Completes the failure data that was read, if any.
    fn close_data(&mut self)
        ensures
            final(self)@ == old(self)@.data_closed(),
    {
        let ghost m = self@;
        if self.data.len() == 0 {
            return;
        }
        let mut block: Vec<String> = Vec::new();
        if let Some(fail) = self.pending.take() {
            block.push(fail);
        }
        let ghost head = text::views(block@);
        block.append(&mut self.data);
        assert(text::views(block@) == head + m.data);
        assert(text::views(self.data@) == Seq::<Seq<char>>::empty());
        assert(m.pending is None ==> head + m.data == m.data);
        assert(m.pending is Some ==> head == seq![m.pending->0]);
        let whole = strings::join(block.as_slice(), "\n");
        let ghost failure = whole@;
        self.failures.push(whole);
        assert(text::views(self.failures@) == m.failures.push(failure));
    }

    /// Completes the pending failure, if there is one.
    fn settle(&mut self)
        ensures
            final(self)@ == old(self)@.settled(),
    {
        self.close_data();
        let ghost m = self@;
        if let Some(fail) = self.pending.take() {
            self.failures.push(fail);
            assert(text::views(self.failures@) == m.failures.push(m.pending->0));
        }
    }

    /// Adds a compressed line to the details, if there is one.
    fn add_detail(&mut self, detail: Option<String>)
        ensures
            final(self)@ == old(self)@.with_detail(text::opt_view(detail)),
    {
        let ghost m = self@;
        if let Some(d) = detail {
            let ghost line = d@;
            self.details.push(d);
            assert(text::views(self.details@) == m.details.push(line));
        }
    }

    /// Reads a line of no other kind.
    fn read_other(&mut self, line: &str)
        ensures
            final(self)@ == old(self)@.with_other(line@),
    {
        let ghost m = self@;
        if self.data.len() > 0 {
            if strings::is_blank(line) {
                self.close_data();
            } else {
                self.data.push(line.to_owned());
                assert(text::views(self.data@) == m.data.push(line@));
            }
        } else if is_run_summary(line) {
            self.global_summary = Some(line.to_owned());
        } else if is_package_summary(line) {
            self.package_summaries.push(line.to_owned());
            assert(text::views(self.package_summaries@) == m.package_summaries.push(line@));
        }
    }

    /// Reads a line outside warnings and tables.
    fn read_plain(&mut self, line: &str)
        requires
            old(self).packages < usize::MAX,
        ensures
            final(self)@ == old(self)@.with_plain(line@),
    {
        let ghost m = self@;
        match classify(line) {
            RunLine::Dropped => {},
            RunLine::Resource => {
                self.add_detail(gas::compress_resource_line(line));
            },
            RunLine::Collected => {
                self.packages = self.packages + 1;
            },
            RunLine::Pass => {
                self.close_data();
                self.add_detail(gas::compress_pass_gas_line(strings::trim(line)));
            },
            RunLine::Fail => {
                self.settle();
                self.pending = Some(line.to_owned());
            },
            RunLine::FailureData => {
                self.data.push(line.to_owned());
                assert(text::views(self.data@) == m.data.push(line@));
            },
            RunLine::Other => {
                self.read_other(line);
            },
        }
    }

    /// Turns the lines of the table that was read into entries.
    fn close_table(&mut self)
        ensures
            final(self)@ == old(self)@.table_closed(),
            final(self).packages == old(self).packages,
    {
        let ghost m = self@;
        let mut entries = gas::compress_gas_table(self.table.as_slice());
        let ghost found = text::views(entries@);
        self.gas_entries.append(&mut entries);
        self.table = Vec::new();
        assert(text::views(self.gas_entries@) == m.gas_entries + found);
        assert(text::views(self.table@) == Seq::<Seq<char>>::empty());
    }

    /// Reads a line outside warnings.
    fn read_text(&mut self, line: &str)
        requires
            old(self).packages < usize::MAX,
        ensures
            final(self)@ == old(self)@.with_text(line@),
    {
        let ghost m = self@;
        if gas::is_gas_table_start(line) {
            let mut table: Vec<String> = Vec::new();
            table.push(line.to_owned());
            self.table = table;
            assert(text::views(self.table@) == seq![line@]);
        } else if self.table.len() == 0 {
            self.read_plain(line);
        } else if gas::is_gas_table_end(line) {
            self.table.push(line.to_owned());
            assert(text::views(self.table@) == m.table.push(line@));
            self.close_table();
        } else if is_table_break(line) {
            self.close_table();
            self.read_plain(line);
        } else {
            self.table.push(line.to_owned());
            assert(text::views(self.table@) == m.table.push(line@));
        }
    }

    /// Reads the next line.
    fn read_line(&mut self, line: &str)
        requires
            old(self).packages < usize::MAX,
        ensures
            final(self)@ == old(self)@.with_line(line@),
    {
        if is_compilation_noise(line) {
            self.in_warning = false;
        } else if strings::starts_with(line, "warn[") || strings::starts_with(line, "warn: ") {
            self.in_warning = true;
        } else if self.in_warning && strings::is_blank(line) {
            self.in_warning = false;
        } else if self.in_warning && is_warning_detail(line) {
        } else {
            self.in_warning = false;
            self.read_text(line);
        }
    }
}

/// Reads a whole output.
pub fn scan_run(output: &str) -> (r: RunScan)
    ensures
        r@ == run_model(output@),
{
    let lines = strings::lines(output);
    let ghost ls = text::lines_of(output@);
    let mut scan = RunScan::new();
    let mut i: usize = 0;
    while i < lines.len()
        invariant
            ls == text::views(lines@),
            i <= lines.len(),
            scan.packages <= i,
            scan@ == scanned(ls.take(i as int)),
        decreases lines.len() - i,
    {
        proof {
            assert(ls.take(i + 1).drop_last() == ls.take(i as int));
            assert(ls.take(i + 1).last() == lines@[i as int]@);
        }
        scan.read_line(lines[i].as_str());
        i = i + 1;
    }
    assert(ls.take(i as int) == ls);
    scan.settle();
    scan
}

/// Appends the summary lines.
fn append_summaries(out: &mut String, scan: &RunScan)
    ensures
        final(out)@ == old(out)@ + summary_lines(scan@),
{
    let ghost start = out@;
    strings::append_each(out, &scan.package_summaries, "\n");
    if let Some(line) = &scan.global_summary {
        out.append(line.as_str());
        out.append("\n");
    }
    assert(out@ == start + summary_lines(scan@));
}

/// Appends the entries of gas report tables, under a heading.
fn append_gas(out: &mut String, entries: &Vec<String>)
    ensures
        final(out)@ == old(out)@ + gas_section(text::views(entries@)),
{
    let ghost start = out@;
    let ghost es = text::views(entries@);
    if entries.len() == 0 {
        assert(start + gas_section(es) == start);
        return;
    }
    out.append("Gas report:\n");
    let ghost head = out@;
    let ghost indented = es.map_values(|e: Seq<char>| "  "@ + e);
    let mut i: usize = 0;
    assert(head + text::each_ended(indented.take(0), "\n"@) == head);
    while i < entries.len()
        invariant
            es == text::views(entries@),
            indented == es.map_values(|e: Seq<char>| "  "@ + e),
            i <= entries.len(),
            out@ == head + text::each_ended(indented.take(i as int), "\n"@),
        decreases entries.len() - i,
    {
        let ghost shown = text::each_ended(indented.take(i as int), "\n"@);
        out.append("  ");
        out.append(entries[i].as_str());
        out.append("\n");
        proof {
            assert(indented.take(i + 1).drop_last() == indented.take(i as int));
            assert(indented.take(i + 1).last() == "  "@ + es[i as int]);
            assert(out@ == head + (shown + ("  "@ + es[i as int]) + "\n"@));
        }
        i = i + 1;
    }
    assert(indented.take(i as int) == indented);
    assert(out@ == start + gas_section(es));
}

/// The compact view of a test run, given its compact line, if it has one.
pub fn report_run(scan: &RunScan, compact: Option<String>) -> (r: String)
    ensures
        r@ == run_report(scan@, text::opt_view(compact)),
{
    let mut out: String = String::new();
    if scan.failures.len() > 0 {
        strings::append_each(&mut out, &scan.failures, "\n\n");
        append_gas(&mut out, &scan.gas_entries);
        if scan.gas_entries.len() > 0 {
            out.append("\n");
        }
        append_summaries(&mut out, scan);
        assert(out@ == text::each_ended(scan@.failures, "\n\n"@) + gas_section(scan@.gas_entries)
            + (if scan@.gas_entries.len() > 0 {
            "\n"@
        } else {
            seq![]
        }) + summary_lines(scan@));
        return strings::trim(out.as_str()).to_owned();
    }
    strings::append_each(&mut out, &scan.details, "\n");
    append_gas(&mut out, &scan.gas_entries);
    let ghost body = out@;
    assert(body == text::each_ended(scan@.details, "\n"@) + gas_section(scan@.gas_entries));
    match compact {
        None => {
            append_summaries(&mut out, scan);
        },
        Some(line) => {
            if scan.details.len() == 0 && scan.gas_entries.len() == 0 {
                return line;
            }
            out.append(line.as_str());
            out.append("\n");
            assert(out@ == body + (line@ + "\n"@));
        },
    }
    strings::trim(out.as_str()).to_owned()
}

/// Filter snforge test output.
///
/// Basic mode (`snforge test`):
///   - Strip [PASS]/[IGNORED]/Running/Compiled lines → compact `✓` summary
///
/// Detailed resources mode (`--detailed-resources`):
///   - [PASS] lines with l1_gas/l2_gas → compressed: `[PASS] test (l2:~809044)`
///   - `sierra gas:` lines → stripped (redundant with inline gas in [PASS])
///   - `syscalls:` non-empty → compressed: `  syscalls:call_contract:2,deploy:1`
///   - `builtins:` non-empty → compressed
///
/// Gas report mode (`--gas-report`):
///   - [PASS] lines with l1_gas/l2_gas → compressed
///   - Gas report ASCII tables (╭╰│) → parsed into compact `Contract::Fn: min:N max:N`
///   - "No contract gas usage data..." → stripped
///
/// Always:
///   - [FAIL] lines + Failure data: blocks → preserved
///   - `Tests: ...` / `Tests summary: ...` → preserved where no compact summary stands for them
pub fn filter_snforge_test(output: &str) -> (r: String)
    requires
        countable(run_model(output@)),
    ensures
        r@ == run_report(run_model(output@), run_summary(run_model(output@))),
{
    let scan = scan_run(output);
    let compact = if scan.failures.len() > 0 {
        None
    } else {
        let global = match &scan.global_summary {
            None => None,
            Some(line) => Some(line.as_str()),
        };
        summary::build_compact_summary(global, &scan.package_summaries, scan.packages)
    };
    report_run(&scan, compact)
}

/// Filters snforge test output, or gives nothing where the totals cannot be held.
pub fn filter_snforge_test_checked(output: &str) -> (r: Option<String>)
    ensures
        r is Some <==> countable(run_model(output@)),
        r is Some ==> r->0@ == run_report(run_model(output@), run_summary(run_model(output@))),
{
    let scan = scan_run(output);
    if scan.failures.len() == 0 {
        let global = match &scan.global_summary {
            None => None,
            Some(line) => Some(line.as_str()),
        };
        if !summary::can_count(global, &scan.package_summaries) {
            return None;
        }
    }
    Some(filter_snforge_test(output))
}

} // verus!
