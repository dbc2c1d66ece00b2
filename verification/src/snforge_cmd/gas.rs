//! Gas and resource figures, compressed.
use crate::strings;
use crate::text;
use vstd::prelude::*;
use vstd::string::*;

verus! {

/// Whether a line is the top border of a gas report table.
pub open spec fn table_start(line: Seq<char>) -> bool {
    let t = text::trimmed(line);
    t.len() > 0 && t[0] == '╭'
}

/// Whether a line is the bottom border of a gas report table.
pub open spec fn table_end(line: Seq<char>) -> bool {
    let t = text::trimmed(line);
    t.len() > 0 && t[0] == '╰'
}

/// Returns true if the line starts a gas report ASCII table.
pub fn is_gas_table_start(line: &str) -> (r: bool)
    ensures
        r == table_start(line@),
{
    strings::starts_with_char(strings::trim(line), '╭')
}

/// Returns true if the line ends a gas report ASCII table.
pub fn is_gas_table_end(line: &str) -> (r: bool)
    ensures
        r == table_end(line@),
{
    strings::starts_with_char(strings::trim(line), '╰')
}

/// A figure with its name abbreviated; nothing for an empty field and for zero.
pub open spec fn gas_field(piece: Seq<char>) -> Option<Seq<char>> {
    let field = text::trimmed(piece);
    if field.len() == 0 || "~0"@.is_suffix_of(field) {
        None
    } else if "l1_data_gas: "@.is_prefix_of(field) {
        Some("l1d:"@ + field.skip("l1_data_gas: "@.len() as int))
    } else if "l1_gas: "@.is_prefix_of(field) {
        Some("l1:"@ + field.skip("l1_gas: "@.len() as int))
    } else if "l2_gas: "@.is_prefix_of(field) {
        Some("l2:"@ + field.skip("l2_gas: "@.len() as int))
    } else {
        Some(field)
    }
}

/// The figures of a test that are not zero, with their names abbreviated.
pub open spec fn gas_fields(figures: Seq<char>) -> Seq<Seq<char>> {
    text::split_at_each(figures, ',').filter_map(|piece: Seq<char>| gas_field(piece))
}

/// A `[PASS]` line with its figures, which stand between its last parentheses, compressed.
/// Nothing for a line without L1 or L2 figures.
pub open spec fn pass_gas(line: Seq<char>) -> Option<Seq<char>> {
    if !text::has_text(line, "l1_gas:"@) && !text::has_text(line, "l2_gas:"@) {
        None
    } else {
        match (text::last_position(line, '('), text::last_position(line, ')')) {
            (Some(start), Some(end)) => if end <= start {
                None
            } else {
                let name = text::trimmed(line.take(start));
                let fields = gas_fields(line.subrange(start + 1, end));
                if fields.len() == 0 {
                    Some(name)
                } else {
                    Some(name + " ("@ + text::joined(fields, " "@) + ")"@)
                }
            },
            _ => None,
        }
    }
}

/// Compresses one figure.
fn compress_field(piece: &str) -> (r: Option<String>)
    ensures
        text::opt_view(r) == gas_field(piece@),
{
    let field = strings::trim(piece);
    if field.is_empty() || strings::ends_with(field, "~0") {
        return None;
    }
    let mut out: String = String::new();
    if let Some(rest) = strings::strip_prefix(field, "l1_data_gas: ") {
        out.append("l1d:");
        out.append(rest);
        assert(out@ == "l1d:"@ + rest@);
    } else if let Some(rest) = strings::strip_prefix(field, "l1_gas: ") {
        out.append("l1:");
        out.append(rest);
        assert(out@ == "l1:"@ + rest@);
    } else if let Some(rest) = strings::strip_prefix(field, "l2_gas: ") {
        out.append("l2:");
        out.append(rest);
        assert(out@ == "l2:"@ + rest@);
    } else {
        out.append(field);
        assert(out@ == field@);
    }
    Some(out)
}

/// Compresses the figures of a test.
fn compress_fields(figures: &str) -> (r: Vec<String>)
    ensures
        text::views(r@) == gas_fields(figures@),
{
    let pieces = strings::split(figures, ',');
    let ghost ps = text::split_at_each(figures@, ',');
    let ghost f = |piece: Seq<char>| gas_field(piece);
    let mut out: Vec<String> = Vec::new();
    let mut i: usize = 0;
    assert(text::views(out@) == ps.take(0).filter_map(f));
    while i < pieces.len()
        invariant
            ps == text::views(pieces@),
            i <= pieces.len(),
            f == (|piece: Seq<char>| gas_field(piece)),
            text::views(out@) == ps.take(i as int).filter_map(f),
        decreases pieces.len() - i,
    {
        let ghost before = text::views(out@);
        proof {
            assert(ps.take(i + 1).drop_last() == ps.take(i as int));
            assert(ps.take(i + 1).last() == pieces@[i as int]@);
            reveal(Seq::filter_map);
        }
        if let Some(field) = compress_field(pieces[i].as_str()) {
            let ghost whole = field@;
            out.push(field);
            assert(text::views(out@) == before + seq![whole]);
        }
        i = i + 1;
    }
    assert(ps.take(i as int) == ps);
    out
}

/// Compress a [PASS] line with extended gas format (l1_gas/l2_gas).
/// Returns None if it's the basic `(gas: ~N)` format (should be stripped by caller).
///
/// Input:  "[PASS] test::name (l1_gas: ~0, l1_data_gas: ~0, l2_gas: ~809044)"
/// Output: Some("[PASS] test::name (l2:~809044)")
pub fn compress_pass_gas_line(line: &str) -> (r: Option<String>)
    ensures
        text::opt_view(r) == pass_gas(line@),
{
    if !strings::contains(line, "l1_gas:") && !strings::contains(line, "l2_gas:") {
        return None;
    }
    match (strings::rfind(line, '('), strings::rfind(line, ')')) {
        (Some(start), Some(end)) => {
            if end <= start {
                return None;
            }
            let head = line.substring_char(0, start);
            assert(head@ == line@.take(start as int));
            let name = strings::trim(head);
            let fields = compress_fields(line.substring_char(start + 1, end));
            let mut out: String = name.to_owned();
            if fields.len() > 0 {
                let figures = strings::join(fields.as_slice(), " ");
                out.append(" (");
                out.append(figures.as_str());
                out.append(")");
            }
            Some(out)
        },
        _ => None,
    }
}

/// The name and the value of a resource line; nothing for another line.
pub open spec fn resource(line: Seq<char>) -> Option<(Seq<char>, Seq<char>)> {
    let t = text::trimmed(line);
    if "syscalls:"@.is_prefix_of(t) {
        Some(("syscalls"@, text::trimmed(t.skip("syscalls:"@.len() as int))))
    } else if "builtins:"@.is_prefix_of(t) {
        Some(("builtins"@, text::trimmed(t.skip("builtins:"@.len() as int))))
    } else if "l2_l1_message_sizes:"@.is_prefix_of(t) {
        Some(("l2_msg"@, text::trimmed(t.skip("l2_l1_message_sizes:"@.len() as int))))
    } else {
        None
    }
}

/// A value without the parentheses round it and without spaces after colons and commas.
pub open spec fn tight(value: Seq<char>) -> Seq<char> {
    text::replaced(text::replaced(text::without_parens(value), ": "@, ":"@), ", "@, ","@)
}

/// A resource line compressed; nothing for an empty value and for a line of another kind.
pub open spec fn resource_text(line: Seq<char>) -> Option<Seq<char>> {
    match resource(line) {
        None => None,
        Some((name, value)) => if value.len() == 0 || value == "()"@ || tight(value).len() == 0 {
            None
        } else {
            Some("  "@ + name + ":"@ + tight(value))
        },
    }
}

/// Compress a syscalls/builtins/l2_l1_message_sizes line.
/// Returns None if the value is empty `()` or blank.
///
/// Input:  "        syscalls: call_contract: 2, deploy: 1"
/// Output: Some("  syscalls:call_contract:2,deploy:1")
pub fn compress_resource_line(line: &str) -> (r: Option<String>)
    ensures
        text::opt_view(r) == resource_text(line@),
{
    let t = strings::trim(line);
    let (name, value) = if let Some(rest) = strings::strip_prefix(t, "syscalls:") {
        ("syscalls", strings::trim(rest))
    } else if let Some(rest) = strings::strip_prefix(t, "builtins:") {
        ("builtins", strings::trim(rest))
    } else if let Some(rest) = strings::strip_prefix(t, "l2_l1_message_sizes:") {
        ("l2_msg", strings::trim(rest))
    } else {
        return None;
    };
    if value.is_empty() || strings::same_text(value, "()") {
        return None;
    }
    proof {
        reveal_strlit(": ");
        reveal_strlit(", ");
    }
    let inner = strings::trim_parens(value);
    let colons = strings::replace(inner, ": ", ":");
    let compact = strings::replace(colons.as_str(), ", ", ",");
    if compact.as_str().is_empty() {
        None
    } else {
        let mut out: String = "  ".to_owned();
        out.append(name);
        out.append(":");
        out.append(compact.as_str());
        Some(out)
    }
}

/// The left and the right cell of a table row; nothing for a line that has no two cells.
pub open spec fn row_cells(line: Seq<char>) -> Option<(Seq<char>, Seq<char>)> {
    let t = text::trimmed(line);
    let cells = text::split_at_each(t, '│');
    if t.len() > 0 && t[0] == '│' && cells.len() >= 3 {
        Some((text::trimmed(cells[1]), text::trimmed(cells[2])))
    } else {
        None
    }
}

/// What has been read of a gas report table.
#[verifier::ext_equal]
pub struct TableModel {
    /// The entries that are complete.
    pub entries: Seq<Seq<char>>,
    /// The contract that the rows belong to.
    pub contract: Seq<char>,
    /// The function that the rows belong to.
    pub function: Seq<char>,
    /// The figures of the entry that is not complete.
    pub stats: Seq<Seq<char>>,
    /// Whether the row with the names of the columns was read.
    pub past_header: bool,
}

impl TableModel {
    /// Nothing read yet.
    pub open spec fn empty() -> TableModel {
        TableModel {
            entries: seq![],
            contract: seq![],
            function: seq![],
            stats: seq![],
            past_header: false,
        }
    }

    /// The entry that has a function and figures is complete.
    pub open spec fn closed(self) -> TableModel {
        if self.function.len() > 0 && self.stats.len() > 0 {
            TableModel {
                entries: self.entries.push(
                    self.contract + "::"@ + self.function + ": "@ + text::joined(self.stats, " "@),
                ),
                stats: seq![],
                ..self
            }
        } else {
            self
        }
    }

    /// The next line of the table is read.
    pub open spec fn with_line(self, line: Seq<char>) -> TableModel {
        match row_cells(line) {
            None => self,
            Some((left, right)) => if left == "Contract"@ {
                TableModel { past_header: true, ..self }
            } else if !self.past_header {
                self
            } else if left.len() > 0 {
                TableModel {
                    contract: left,
                    function: if right.len() > 0 {
                        right
                    } else {
                        self.function
                    },
                    ..self.closed()
                }
            } else if right.len() > 0 {
                TableModel { stats: self.stats.push(text::replaced(right, ": "@, ":"@)), ..self }
            } else {
                self
            },
        }
    }
}

/// What the lines of a table hold.
pub open spec fn table_model(lines: Seq<Seq<char>>) -> TableModel
    decreases lines.len(),
{
    if lines.len() == 0 {
        TableModel::empty()
    } else {
        table_model(lines.drop_last()).with_line(lines.last())
    }
}

/// The entries of a table.
pub open spec fn table_entries(lines: Seq<Seq<char>>) -> Seq<Seq<char>> {
    table_model(lines).closed().entries
}

/// What has been read of a gas report table.
struct TableScan {
    entries: Vec<String>,
    contract: String,
    function: String,
    stats: Vec<String>,
    past_header: bool,
}

impl TableScan {
    spec fn model(&self) -> TableModel {
        TableModel {
            entries: text::views(self.entries@),
            contract: self.contract@,
            function: self.function@,
            stats: text::views(self.stats@),
            past_header: self.past_header,
        }
    }

    /// Completes the entry that has a function and figures.
    fn close(&mut self)
        ensures
            final(self).model() == old(self).model().closed(),
    {
        let ghost m = self.model();
        if !self.function.as_str().is_empty() && self.stats.len() > 0 {
            let figures = strings::join(self.stats.as_slice(), " ");
            let mut entry: String = self.contract.clone();
            entry.append("::");
            entry.append(self.function.as_str());
            entry.append(": ");
            entry.append(figures.as_str());
            let ghost whole = entry@;
            self.entries.push(entry);
            self.stats = Vec::new();
            assert(text::views(self.entries@) == m.entries.push(whole));
            assert(text::views(self.stats@) == Seq::<Seq<char>>::empty());
        }
    }

    /// Reads the next line of the table.
    fn read(&mut self, line: &str)
        ensures
            final(self).model() == old(self).model().with_line(line@),
    {
        let ghost m = self.model();
        let t = strings::trim(line);
        if !strings::starts_with_char(t, '│') {
            return;
        }
        let cells = strings::split(t, '│');
        if cells.len() < 3 {
            return;
        }
        let left = strings::trim(cells[1].as_str());
        let right = strings::trim(cells[2].as_str());
        assert(row_cells(line@) == Some((left@, right@)));
        if strings::same_text(left, "Contract") {
            self.past_header = true;
        } else if !self.past_header {
        } else if !left.is_empty() {
            self.close();
            self.contract = left.to_owned();
            if !right.is_empty() {
                self.function = right.to_owned();
            }
        } else if !right.is_empty() {
            proof {
                reveal_strlit(": ");
            }
            let stat = strings::replace(right, ": ", ":");
            let ghost whole = stat@;
            self.stats.push(stat);
            assert(text::views(self.stats@) == m.stats.push(whole));
        }
    }
}

/// Parse a gas report ASCII table and return compressed single-line entries.
///
/// Input table:
///   │ Calls gas report │
///   │ Contract │ Function │
///   │ ERC20    │ transfer │
///   │          │ min: 1234 │
///   │          │ max: 5678 │
///
/// Output: ["ERC20::transfer: min:1234 max:5678"]
pub fn compress_gas_table(table_lines: &[String]) -> (r: Vec<String>)
    ensures
        text::views(r@) == table_entries(text::views(table_lines@)),
{
    let ghost ls = text::views(table_lines@);
    let mut scan = TableScan {
        entries: Vec::new(),
        contract: String::new(),
        function: String::new(),
        stats: Vec::new(),
        past_header: false,
    };
    assert(scan.model() == TableModel::empty());
    let mut i: usize = 0;
    while i < table_lines.len()
        invariant
            ls == text::views(table_lines@),
            i <= table_lines.len(),
            scan.model() == table_model(ls.take(i as int)),
        decreases table_lines.len() - i,
    {
        proof {
            assert(ls.take(i + 1).drop_last() == ls.take(i as int));
            assert(ls.take(i + 1).last() == table_lines@[i as int]@);
        }
        scan.read(table_lines[i].as_str());
        i = i + 1;
    }
    assert(ls.take(i as int) == ls);
    scan.close();
    scan.entries
}

} // verus!
