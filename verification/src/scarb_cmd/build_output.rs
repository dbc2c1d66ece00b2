//! The output of `scarb build` and `scarb check`.
use crate::counts;
use crate::number;
use crate::scarb_cmd::noise;
use crate::scarb_cmd::noise::Stage;
use crate::strings;
use crate::text;
use vstd::prelude::*;
use vstd::string::*;

verus! {

/// How many diagnostics of one kind are shown in full.
pub const SHOWN_DIAGNOSTICS: usize = 15;

/// What a line of the output is.
#[derive(Debug, Clone, Copy, PartialEq, Eq, Structural)]
pub enum BuildLine {
    /// A package is compiled or checked.
    Package,
    /// A lock is awaited or taken, or a package is fetched.
    Fetch,
    /// The build is finished.
    Finished,
    /// A warning of scarb about itself begins.
    Noise,
    /// An error that says only that there were errors.
    Aborted,
    /// An error begins.
    Error,
    /// A warning with a code begins.
    CodedWarning,
    /// A warning without a code begins.
    PlainWarning,
    /// A package's warnings are counted.
    Tally,
    /// Anything else.
    Other,
}

/// What a line of the output is; the first kind that fits.
pub open spec fn line_kind(line: Seq<char>) -> BuildLine {
    let start = text::trimmed_start(line);
    if "Compiling"@.is_prefix_of(start) || "Checking"@.is_prefix_of(start) {
        BuildLine::Package
    } else if "Blocking waiting for file lock"@.is_prefix_of(start)
        || "Downloading"@.is_prefix_of(start) || "Downloaded"@.is_prefix_of(start)
        || "Locking"@.is_prefix_of(start) {
        BuildLine::Fetch
    } else if "Finished"@.is_prefix_of(start) {
        BuildLine::Finished
    } else if noise::noise_warn(line) {
        BuildLine::Noise
    } else if "error["@.is_prefix_of(line) || "error:"@.is_prefix_of(line) {
        if text::has_text(line, "aborting due to"@) || text::has_text(line, "could not compile"@) {
            BuildLine::Aborted
        } else {
            BuildLine::Error
        }
    } else if "warn["@.is_prefix_of(line) {
        BuildLine::CodedWarning
    } else if "warn: "@.is_prefix_of(line) {
        BuildLine::PlainWarning
    } else if "warning:"@.is_prefix_of(line) && text::has_text(line, "generated"@)
        && text::has_text(line, "warning"@) {
        BuildLine::Tally
    } else {
        BuildLine::Other
    }
}

/// Whether the first line from `i` on that is not blank points into a source file.
pub open spec fn pointer_follows(lines: Seq<Seq<char>>, i: int) -> bool
    decreases lines.len() - i,
{
    if i >= lines.len() {
        false
    } else if text::blank(lines[i]) {
        pointer_follows(lines, i + 1)
    } else {
        "-->"@.is_prefix_of(text::trimmed_start(lines[i]))
    }
}

/// What has been read of a build's output.
#[verifier::ext_equal]
pub struct BuildModel {
    /// The error blocks that are complete.
    pub errors: Seq<Seq<char>>,
    /// The warning blocks that are complete.
    pub warnings: Seq<Seq<char>>,
    /// How many packages were compiled or checked.
    pub compiled: nat,
    /// The last line that said that the build was finished, or nothing.
    pub finished: Seq<char>,
    /// The lines of the block that is still open; none where no block is.
    pub block: Seq<Seq<char>>,
    /// Whether the open block is an error's.
    pub block_is_error: bool,
}

impl BuildModel {
    /// Nothing read yet.
    pub open spec fn empty() -> BuildModel {
        BuildModel {
            errors: seq![],
            warnings: seq![],
            compiled: 0,
            finished: seq![],
            block: seq![],
            block_is_error: false,
        }
    }

    /// The open block, if there is one, is complete.
    pub open spec fn closed(self) -> BuildModel {
        if self.block.len() == 0 {
            self
        } else if self.block_is_error {
            BuildModel {
                errors: self.errors.push(text::joined(self.block, "\n"@)),
                block: seq![],
                ..self
            }
        } else {
            BuildModel {
                warnings: self.warnings.push(text::joined(self.block, "\n"@)),
                block: seq![],
                ..self
            }
        }
    }

    /// A block begins with `line`.
    pub open spec fn opened(self, is_error: bool, line: Seq<char>) -> BuildModel {
        BuildModel { block: seq![line], block_is_error: is_error, ..self.closed() }
    }

    /// A line that begins nothing: it belongs to the open block, which a blank line ends once
    /// the block has more than three lines.
    pub open spec fn continued(self, line: Seq<char>) -> BuildModel {
        if self.block.len() == 0 {
            self
        } else if text::blank(line) && self.block.len() > 3 {
            self.closed()
        } else {
            BuildModel { block: self.block.push(line), ..self }
        }
    }
}

/// `m` once the lines from `i` on are read too.
pub open spec fn scanned(lines: Seq<Seq<char>>, i: int, m: BuildModel) -> BuildModel
    decreases lines.len() - i,
    via scanned_decreases
{
    if i >= lines.len() {
        m
    } else {
        match line_kind(lines[i]) {
            BuildLine::Package => scanned(
                lines,
                i + 1,
                BuildModel { compiled: m.compiled + 1, ..m },
            ),
            BuildLine::Finished => scanned(
                lines,
                i + 1,
                BuildModel { finished: text::trimmed_start(lines[i]), ..m },
            ),
            BuildLine::Fetch | BuildLine::Aborted | BuildLine::Tally => scanned(lines, i + 1, m),
            BuildLine::Noise => scanned(lines, noise::noise_end(Stage::Build, lines, i + 1), m),
            BuildLine::Error => scanned(lines, i + 1, m.opened(true, lines[i])),
            BuildLine::CodedWarning => scanned(lines, i + 1, m.opened(false, lines[i])),
            BuildLine::PlainWarning => scanned(
                lines,
                i + 1,
                if pointer_follows(lines, i + 1) {
                    m.opened(false, lines[i])
                } else {
                    m.closed()
                },
            ),
            BuildLine::Other => scanned(lines, i + 1, m.continued(lines[i])),
        }
    }
}

#[via_fn]
proof fn scanned_decreases(lines: Seq<Seq<char>>, i: int, m: BuildModel) {
    if i < lines.len() {
        noise::lemma_noise_end(Stage::Build, lines, i + 1);
    }
}

/// What a whole output holds.
pub open spec fn build_model(output: Seq<char>) -> BuildModel {
    scanned(text::lines_of(output), 0, BuildModel::empty()).closed()
}

/// The first `k` blocks, each on lines of its own, with a blank line before each next block.
pub open spec fn first_blocks(blocks: Seq<Seq<char>>, k: int) -> Seq<char>
    decreases k,
{
    if k <= 0 {
        seq![]
    } else {
        first_blocks(blocks, k - 1) + blocks[k - 1] + "\n"@ + (if k < blocks.len() {
            "\n"@
        } else {
            ""@
        })
    }
}

/// The blocks of one kind: those that are shown in full, and how many there are beyond them.
pub open spec fn block_list(blocks: Seq<Seq<char>>, noun: Seq<char>) -> Seq<char> {
    if blocks.len() > SHOWN_DIAGNOSTICS {
        first_blocks(blocks, SHOWN_DIAGNOSTICS as int) + "\n... +"@ + number::decimal(
            (blocks.len() - SHOWN_DIAGNOSTICS) as nat,
        ) + " more "@ + noun + "\n"@
    } else {
        first_blocks(blocks, blocks.len() as int)
    }
}

/// The line that counts the errors, if there are any, the warnings and the packages.
pub open spec fn headline(m: BuildModel) -> Seq<char> {
    "scarb build: "@ + (if m.errors.len() > 0 {
        counts::quantity(m.errors.len(), " error"@, " errors"@) + ", "@
    } else {
        seq![]
    }) + counts::quantity(m.warnings.len(), " warning"@, " warnings"@) + " ("@ + number::decimal(
        m.compiled,
    ) + " packages)\n"@
}

/// The errors, then the warnings.
pub open spec fn shown_blocks(m: BuildModel) -> Seq<char> {
    (if m.errors.len() > 0 {
        block_list(m.errors, "errors"@) + (if m.warnings.len() > 0 {
            "\n"@
        } else {
            ""@
        })
    } else {
        seq![]
    }) + block_list(m.warnings, "warnings"@)
}

/// The line that said that the build was finished, if there was one.
pub open spec fn ending(m: BuildModel) -> Seq<char> {
    if m.finished.len() > 0 {
        "\n"@ + m.finished
    } else {
        seq![]
    }
}

/// The compact view of a build.
pub open spec fn build_report(m: BuildModel) -> Seq<char> {
    if m.errors.len() == 0 && m.warnings.len() == 0 {
        "✓ scarb build ("@ + number::decimal(m.compiled) + " packages compiled)"@
    } else {
        text::trimmed(
            headline(m) + "═══════════════════════════════════════\n"@ + shown_blocks(m) + ending(
                m,
            ),
        )
    }
}

/// What has been read of a build's output.
#[derive(Debug)]
pub struct BuildScan {
    pub errors: Vec<String>,
    pub warnings: Vec<String>,
    pub compiled: usize,
    pub finished: String,
    pub block: Vec<String>,
    pub block_is_error: bool,
}

impl View for BuildScan {
    type V = BuildModel;

    open spec fn view(&self) -> BuildModel {
        BuildModel {
            errors: text::views(self.errors@),
            warnings: text::views(self.warnings@),
            compiled: self.compiled as nat,
            finished: self.finished@,
            block: text::views(self.block@),
            block_is_error: self.block_is_error,
        }
    }
}

impl BuildScan {
    /// Nothing read yet.
    fn new() -> (r: BuildScan)
        ensures
            r@ == BuildModel::empty(),
    {
        BuildScan {
            errors: Vec::new(),
            warnings: Vec::new(),
            compiled: 0,
            finished: String::new(),
            block: Vec::new(),
            block_is_error: false,
        }
    }

    /// Completes the open block, if there is one.
    fn close(&mut self)
        ensures
            final(self)@ == old(self)@.closed(),
    {
        let ghost m = self@;
        if self.block.len() == 0 {
            return;
        }
        let whole = strings::join(self.block.as_slice(), "\n");
        let ghost block = whole@;
        if self.block_is_error {
            self.errors.push(whole);
            assert(text::views(self.errors@) == m.errors.push(block));
        } else {
            self.warnings.push(whole);
            assert(text::views(self.warnings@) == m.warnings.push(block));
        }
        self.block = Vec::new();
        assert(text::views(self.block@) == Seq::<Seq<char>>::empty());
    }

    /// Begins a block with `line`.
    fn open(&mut self, is_error: bool, line: &str)
        ensures
            final(self)@ == old(self)@.opened(is_error, line@),
    {
        self.close();
        let mut block: Vec<String> = Vec::new();
        block.push(line.to_owned());
        self.block = block;
        self.block_is_error = is_error;
        assert(text::views(self.block@) == seq![line@]);
    }

    /// Takes a line that begins nothing.
    fn carry_on(&mut self, line: &str)
        ensures
            final(self)@ == old(self)@.continued(line@),
    {
        let ghost m = self@;
        if self.block.len() == 0 {
        } else if self.block.len() > 3 && strings::is_blank(line) {
            self.close();
        } else {
            self.block.push(line.to_owned());
            assert(text::views(self.block@) == m.block.push(line@));
        }
    }
}

/// What a line of the output is.
pub fn classify(line: &str) -> (r: BuildLine)
    ensures
        r == line_kind(line@),
{
    let start = strings::trim_start(line);
    if strings::starts_with(start, "Compiling") || strings::starts_with(start, "Checking") {
        BuildLine::Package
    } else if strings::starts_with(start, "Blocking waiting for file lock") || strings::starts_with(
        start,
        "Downloading",
    ) || strings::starts_with(start, "Downloaded") || strings::starts_with(start, "Locking") {
        BuildLine::Fetch
    } else if strings::starts_with(start, "Finished") {
        BuildLine::Finished
    } else if noise::is_noise_warn(line) {
        BuildLine::Noise
    } else if strings::starts_with(line, "error[") || strings::starts_with(line, "error:") {
        if strings::contains(line, "aborting due to") || strings::contains(
            line,
            "could not compile",
        ) {
            BuildLine::Aborted
        } else {
            BuildLine::Error
        }
    } else if strings::starts_with(line, "warn[") {
        BuildLine::CodedWarning
    } else if strings::starts_with(line, "warn: ") {
        BuildLine::PlainWarning
    } else if strings::starts_with(line, "warning:") && strings::contains(line, "generated")
        && strings::contains(line, "warning") {
        BuildLine::Tally
    } else {
        BuildLine::Other
    }
}

/// Whether the first line from `i` on that is not blank points into a source file.
fn points_to_source(lines: &Vec<String>, i: usize) -> (r: bool)
    requires
        i <= lines.len(),
    ensures
        r == pointer_follows(text::views(lines@), i as int),
{
    let mut k: usize = i;
    while k < lines.len()
        invariant
            i <= k <= lines.len(),
            pointer_follows(text::views(lines@), i as int) == pointer_follows(
                text::views(lines@),
                k as int,
            ),
        decreases lines.len() - k,
    {
        let line = lines[k].as_str();
        if !strings::is_blank(line) {
            return strings::starts_with(strings::trim_start(line), "-->");
        }
        k = k + 1;
    }
    false
}

/// Reads a whole output.
pub fn scan_build(output: &str) -> (r: BuildScan)
    ensures
        r@ == build_model(output@),
{
    let lines = strings::lines(output);
    let ghost ls = text::lines_of(output@);
    let mut scan = BuildScan::new();
    let mut i: usize = 0;
    while i < lines.len()
        invariant
            ls == text::views(lines@),
            i <= lines.len(),
            scan.compiled <= i,
            scanned(ls, i as int, scan@) == scanned(ls, 0, BuildModel::empty()),
        decreases lines.len() - i,
    {
        let line = lines[i].as_str();
        let ghost m = scan@;
        assert(ls[i as int] == line@);
        match classify(line) {
            BuildLine::Package => {
                scan.compiled = scan.compiled + 1;
                i = i + 1;
            },
            BuildLine::Finished => {
                scan.finished = strings::trim_start(line).to_owned();
                i = i + 1;
            },
            BuildLine::Fetch | BuildLine::Aborted | BuildLine::Tally => {
                i = i + 1;
            },
            BuildLine::Noise => {
                i = noise::skip_noise(Stage::Build, &lines, i + 1);
            },
            BuildLine::Error => {
                scan.open(true, line);
                i = i + 1;
            },
            BuildLine::CodedWarning => {
                scan.open(false, line);
                i = i + 1;
            },
            BuildLine::PlainWarning => {
                if points_to_source(&lines, i + 1) {
                    scan.open(false, line);
                } else {
                    scan.close();
                }
                i = i + 1;
            },
            BuildLine::Other => {
                scan.carry_on(line);
                i = i + 1;
            },
        }
    }
    scan.close();
    scan
}

/// Appends the blocks of one kind.
fn append_blocks(out: &mut String, blocks: &Vec<String>, noun: &str)
    ensures
        final(out)@ == old(out)@ + block_list(text::views(blocks@), noun@),
{
    let ghost bs = text::views(blocks@);
    let ghost start = out@;
    let n: usize = if blocks.len() > SHOWN_DIAGNOSTICS {
        SHOWN_DIAGNOSTICS
    } else {
        blocks.len()
    };
    let mut i: usize = 0;
    assert(start + first_blocks(bs, 0) == start);
    while i < n
        invariant
            bs == text::views(blocks@),
            i <= n <= blocks.len(),
            out@ == start + first_blocks(bs, i as int),
        decreases n - i,
    {
        out.append(blocks[i].as_str());
        out.append("\n");
        out.append(
            if i < blocks.len() - 1 {
                "\n"
            } else {
                ""
            },
        );
        i = i + 1;
        assert(out@ == start + first_blocks(bs, i as int));
    }
    if blocks.len() > SHOWN_DIAGNOSTICS {
        out.append("\n... +");
        number::append_decimal(out, blocks.len() - SHOWN_DIAGNOSTICS);
        out.append(" more ");
        out.append(noun);
        out.append("\n");
        assert(out@ == start + block_list(bs, noun@));
    }
}

/// The compact view of a build.
pub fn report_build(scan: &BuildScan) -> (r: String)
    ensures
        r@ == build_report(scan@),
{
    if scan.errors.len() == 0 && scan.warnings.len() == 0 {
        let mut out: String = "✓ scarb build (".to_owned();
        number::append_decimal(&mut out, scan.compiled);
        out.append(" packages compiled)");
        return out;
    }
    let mut out: String = "scarb build: ".to_owned();
    if scan.errors.len() > 0 {
        counts::append_quantity(&mut out, scan.errors.len(), " error", " errors");
        out.append(", ");
    }
    counts::append_quantity(&mut out, scan.warnings.len(), " warning", " warnings");
    out.append(" (");
    number::append_decimal(&mut out, scan.compiled);
    out.append(" packages)\n");
    assert(out@ == headline(scan@));
    out.append("═══════════════════════════════════════\n");
    let ghost start = out@;
    if scan.errors.len() > 0 {
        append_blocks(&mut out, &scan.errors, "errors");
        out.append(
            if scan.warnings.len() > 0 {
                "\n"
            } else {
                ""
            },
        );
    }
    append_blocks(&mut out, &scan.warnings, "warnings");
    let ghost body = out@;
    assert(body == start + shown_blocks(scan@));
    if !scan.finished.as_str().is_empty() {
        out.append("\n");
        out.append(scan.finished.as_str());
    }
    assert(out@ == body + ending(scan@));
    strings::trim(out.as_str()).to_owned()
}

/// Filters the output of `scarb build` and `scarb check`.
///
/// Package lines are counted, not shown; lock, download and infrastructure lines are dropped.
/// Errors, and warnings about the user's code, are collected as blocks. Where there are none
/// the view is one line with the number of packages. Otherwise it counts errors and warnings
/// and shows the errors, then the warnings.
pub fn filter_scarb_build(output: &str) -> (r: String)
    ensures
        r@ == build_report(build_model(output@)),
{
    let scan = scan_build(output);
    report_build(&scan)
}

} // verus!
