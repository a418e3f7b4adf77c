//! Export encoding (CSV and TXT) and the bookkeeping of multi-part exports.
//!
//! Writing the part files is left to the caller; this module decides what
//! bytes each record becomes, when a new part starts, and how a failed batch
//! is rolled back.
pub mod csv;
pub mod text;

use vstd::prelude::*;

use crate::fofa::models::JsonValue;
use crate::export::csv::{csv_record, encode_csv_record, views_of};
use crate::export::text::{encode_txt_record, has_line_break, has_line_break_exec, txt_record};
use crate::text::{
    decimal, push_decimal, capped_utf8_len, char_from_ascii, chars_of, push_char, push_str, utf8_len_capped,
};

verus! {

/// Keep individual export parts reasonably sized for browser downloads.
pub const DEFAULT_MAX_PART_BYTES: u64 = 47185920;

/// Prevent one task from filling the disk: about 450 MiB with default parts.
pub const DEFAULT_MAX_PARTS: usize = 10;

/// The same limit under the name of a split size.
pub const FILE_SPLIT_BYTES: u64 = DEFAULT_MAX_PART_BYTES;

/// The UTF-8 byte-order mark written at the start of every CSV part.
pub const UTF8_BOM: [u8; 3] = [0xef, 0xbb, 0xbf];

#[derive(Debug, Clone, Copy, PartialEq, Eq, Structural)]
pub enum ExportFormat {
    Csv,
    Txt,
}

impl ExportFormat {
    /// File-name suffix of a part.
    pub fn suffix(self) -> (s: &'static str)
        ensures
            s@ == match self {
                ExportFormat::Csv => ".csv"@,
                ExportFormat::Txt => ".txt"@,
            },
    {
        match self {
            ExportFormat::Csv => ".csv",
            ExportFormat::Txt => ".txt",
        }
    }
}

#[derive(Debug, Clone, Copy, PartialEq, Eq)]
pub struct ExportOptions {
    pub format: ExportFormat,
    /// Applied to every CSV part so each part opens independently in Excel.
    /// Ignored for TXT output.
    pub csv_bom: bool,
    /// A part rolls before a record that would make it exceed this size. A
    /// single oversized record is kept intact and may exceed it.
    pub max_part_bytes: u64,
    pub max_parts: usize,
}

impl Default for ExportOptions {
    fn default() -> (o: ExportOptions)
        ensures
            o.format == ExportFormat::Csv,
            o.csv_bom,
            o.max_part_bytes == DEFAULT_MAX_PART_BYTES,
            o.max_parts == DEFAULT_MAX_PARTS,
    {
        ExportOptions {
            format: ExportFormat::Csv,
            csv_bom: true,
            max_part_bytes: DEFAULT_MAX_PART_BYTES,
            max_parts: DEFAULT_MAX_PARTS,
        }
    }
}

impl ExportOptions {
    pub fn csv(csv_bom: bool) -> (o: ExportOptions)
        ensures
            o.format == ExportFormat::Csv,
            o.csv_bom == csv_bom,
            o.max_part_bytes == DEFAULT_MAX_PART_BYTES,
            o.max_parts == DEFAULT_MAX_PARTS,
    {
        ExportOptions { csv_bom, ..ExportOptions::default() }
    }

    pub fn txt() -> (o: ExportOptions)
        ensures
            o.format == ExportFormat::Txt,
            !o.csv_bom,
            o.max_part_bytes == DEFAULT_MAX_PART_BYTES,
            o.max_parts == DEFAULT_MAX_PARTS,
    {
        ExportOptions { format: ExportFormat::Txt, csv_bom: false, ..ExportOptions::default() }
    }
}

/// A cell a spreadsheet would read as a formula: it starts with `=`, `+`,
/// `-`, `@`, a carriage return or a line feed.
pub open spec fn formula_like(cell: Seq<char>) -> bool {
    cell.len() > 0 && (cell[0] == '=' || cell[0] == '+' || cell[0] == '-' || cell[0] == '@'
        || cell[0] == '\r' || cell[0] == '\n')
}

/// Formula-like cells get a neutral tab prefix; other cells are unchanged.
pub open spec fn sanitized(cell: Seq<char>) -> Seq<char> {
    if formula_like(cell) {
        seq!['\t'] + cell
    } else {
        cell
    }
}

/// Neutralises spreadsheet formula injection in one cell.
pub fn sanitize_cell(cell: &str) -> (s: String)
    ensures
        s@ == sanitized(cell@),
{
    let v = chars_of(cell);
    let mut s = String::new();
    if v.len() > 0 && (v[0] == '=' || v[0] == '+' || v[0] == '-' || v[0] == '@' || v[0] == '\r'
        || v[0] == '\n') {
        push_char(&mut s, '\t');
    }
    push_str(&mut s, cell);
    assert(s@ =~= sanitized(cell@));
    s
}


/// The lowercase hexadecimal digit of `d < 16`.
pub open spec fn hex_digit(d: nat) -> char {
    if d < 10 {
        ((d + 48) as u32) as char
    } else {
        ((d + 87) as u32) as char
    }
}

/// How one character is written inside a compact JSON string: quote and
/// backslash escaped, the usual short escapes for backspace, tab, line feed,
/// form feed and carriage return, `\u00XX` for the other control characters.
pub open spec fn json_escape(c: char) -> Seq<char> {
    if c == '"' {
        seq!['\\', '"']
    } else if c == '\\' {
        seq!['\\', '\\']
    } else if c == '\n' {
        seq!['\\', 'n']
    } else if c == '\r' {
        seq!['\\', 'r']
    } else if c == '\t' {
        seq!['\\', 't']
    } else if c == '\u{8}' {
        seq!['\\', 'b']
    } else if c == '\u{c}' {
        seq!['\\', 'f']
    } else if (c as u32) < 0x20 {
        seq!['\\', 'u', '0', '0', hex_digit((c as u32 / 16) as nat), hex_digit((c as u32 % 16) as nat)]
    } else {
        seq![c]
    }
}

pub open spec fn json_escaped(s: Seq<char>) -> Seq<char>
    decreases s.len(),
{
    if s.len() == 0 {
        Seq::empty()
    } else {
        json_escaped(s.drop_last()) + json_escape(s.last())
    }
}

/// A JSON string literal.
pub open spec fn json_string(s: Seq<char>) -> Seq<char> {
    seq!['"'] + json_escaped(s) + seq!['"']
}

/// The compact JSON text of a value: no whitespace, members in their order.
pub open spec fn json_text(v: JsonValue) -> Seq<char>
    decreases v, 1int,
{
    match v {
        JsonValue::Null => seq!['n', 'u', 'l', 'l'],
        JsonValue::Bool(b) => if b {
            seq!['t', 'r', 'u', 'e']
        } else {
            seq!['f', 'a', 'l', 's', 'e']
        },
        JsonValue::Number(n) => n@,
        JsonValue::Str(s) => json_string(s@),
        JsonValue::Array(items) => seq!['['] + json_items(items@) + seq![']'],
        JsonValue::Object(members) => seq!['{'] + json_members(members@) + seq!['}'],
    }
}

/// The values of an array, separated by commas.
pub open spec fn json_items(s: Seq<JsonValue>) -> Seq<char>
    decreases s, 0int,
{
    if s.len() == 0 {
        Seq::empty()
    } else if s.len() == 1 {
        json_text(s[0])
    } else {
        json_items(s.drop_last()) + seq![','] + json_text(s.last())
    }
}

/// The `"key":value` members of an object, separated by commas.
pub open spec fn json_members(s: Seq<(String, JsonValue)>) -> Seq<char>
    decreases s, 0int,
{
    if s.len() == 0 {
        Seq::empty()
    } else if s.len() == 1 {
        json_string(s[0].0@) + seq![':'] + json_text(s[0].1)
    } else {
        json_members(s.drop_last()) + seq![','] + json_string(s.last().0@) + seq![':'] + json_text(
            s.last().1,
        )
    }
}

fn push_json_string(out: &mut String, s: &str)
    ensures
        final(out)@ == old(out)@ + json_string(s@),
{
    let v = chars_of(s);
    let ghost start = out@;
    push_char(out, '"');
    let mut i: usize = 0;
    while i < v.len()
        invariant
            i <= v@.len(),
            out@ == start + seq!['"'] + json_escaped(v@.take(i as int)),
        decreases v@.len() - i,
    {
        let c = v[i];
        let ghost before = out@;
        if c == '"' {
            push_char(out, '\\');
            push_char(out, '"');
        } else if c == '\\' {
            push_char(out, '\\');
            push_char(out, '\\');
        } else if c == '\n' {
            push_char(out, '\\');
            push_char(out, 'n');
        } else if c == '\r' {
            push_char(out, '\\');
            push_char(out, 'r');
        } else if c == '\t' {
            push_char(out, '\\');
            push_char(out, 't');
        } else if c == '\u{8}' {
            push_char(out, '\\');
            push_char(out, 'b');
        } else if c == '\u{c}' {
            push_char(out, '\\');
            push_char(out, 'f');
        } else if (c as u32) < 0x20 {
            let code = c as u32;
            let hi = (code / 16) as u8;
            let lo = (code % 16) as u8;
            push_char(out, '\\');
            push_char(out, 'u');
            push_char(out, '0');
            push_char(out, '0');
            push_char(out, char_from_ascii(if hi < 10 { hi + 48 } else { hi + 87 }));
            push_char(out, char_from_ascii(if lo < 10 { lo + 48 } else { lo + 87 }));
        } else {
            push_char(out, c);
        }
        assert(out@ =~= before + json_escape(c));
        assert(v@.take(i + 1).drop_last() =~= v@.take(i as int));
        i += 1;
    }
    assert(v@.take(v@.len() as int) =~= v@);
    push_char(out, '"');
    assert(out@ =~= start + json_string(s@));
}

fn push_json(out: &mut String, value: &JsonValue)
    ensures
        final(out)@ == old(out)@ + json_text(*value),
    decreases value,
{
    let ghost start = out@;
    match value {
        JsonValue::Null => {
            proof {
                reveal_strlit("null");
            }
            push_str(out, "null");
        },
        JsonValue::Bool(b) => if *b {
            proof {
                reveal_strlit("true");
            }
            push_str(out, "true");
        } else {
            proof {
                reveal_strlit("false");
            }
            push_str(out, "false");
        },
        JsonValue::Number(n) => push_str(out, n.as_str()),
        JsonValue::Str(t) => push_json_string(out, t.as_str()),
        JsonValue::Array(items) => {
            push_char(out, '[');
            let mut i: usize = 0;
            while i < items.len()
                invariant
                    i <= items@.len(),
                    *value == JsonValue::Array(*items),
                    out@ == start + seq!['['] + json_items(items@.take(i as int)),
                decreases items@.len() - i,
            {
                if i > 0 {
                    push_char(out, ',');
                }
                assert(decreases_to!(*value => (*value)->Array_0));
                assert(decreases_to!(*items => items@));
                assert(decreases_to!(items@ => items@[i as int]));
                push_json(out, &items[i]);
                assert(items@.take(i + 1).drop_last() =~= items@.take(i as int));
                assert(out@ =~= start + seq!['['] + json_items(items@.take(i + 1)));
                i += 1;
            }
            assert(items@.take(items@.len() as int) =~= items@);
            push_char(out, ']');
        },
        JsonValue::Object(members) => {
            push_char(out, '{');
            let mut i: usize = 0;
            while i < members.len()
                invariant
                    i <= members@.len(),
                    *value == JsonValue::Object(*members),
                    out@ == start + seq!['{'] + json_members(members@.take(i as int)),
                decreases members@.len() - i,
            {
                if i > 0 {
                    push_char(out, ',');
                }
                push_json_string(out, members[i].0.as_str());
                push_char(out, ':');
                assert(decreases_to!(*value => (*value)->Object_0));
                assert(decreases_to!(*members => members@));
                assert(decreases_to!(members@ => members@[i as int]));
                assert(decreases_to!(members@[i as int] => members@[i as int].1));
                push_json(out, &members[i].1);
                assert(members@.take(i + 1).drop_last() =~= members@.take(i as int));
                assert(out@ =~= start + seq!['{'] + json_members(members@.take(i + 1)));
                i += 1;
            }
            assert(members@.take(members@.len() as int) =~= members@);
            push_char(out, '}');
        },
    }
    assert(out@ =~= start + json_text(*value));
}

/// The text a result cell becomes: empty for null, the sanitized text of a
/// string, the JSON spelling of a boolean or number, and compact JSON for a
/// nested value.
pub open spec fn cell_text(v: JsonValue) -> Seq<char> {
    match v {
        JsonValue::Null => Seq::empty(),
        JsonValue::Str(s) => sanitized(s@),
        _ => json_text(v),
    }
}

/// Converts a normalized FOFA value into an export cell.
pub fn json_value_to_cell(value: &JsonValue) -> (s: String)
    ensures
        s@ == cell_text(*value),
{
    match value {
        JsonValue::Null => String::new(),
        JsonValue::Str(t) => sanitize_cell(t.as_str()),
        _ => {
            let mut s = String::new();
            push_json(&mut s, value);
            assert(s@ =~= json_text(*value));
            s
        },
    }
}

pub open spec fn cells_text(values: Seq<JsonValue>) -> Seq<Seq<char>> {
    values.map_values(|v: JsonValue| cell_text(v))
}

/// One output row. `cells` already holds any local-only columns such as
/// `source_query` or `source_cidr`; those values are never sent upstream.
#[derive(Debug, Clone, PartialEq, Eq)]
pub struct ExportRecord {
    pub cells: Vec<String>,
}

impl ExportRecord {
    pub fn new(cells: Vec<String>) -> (r: ExportRecord)
        ensures
            r.cells@ == cells@,
    {
        ExportRecord { cells }
    }

    /// Converts a normalized FOFA row cell by cell (see `json_value_to_cell`).
    pub fn from_json_values(values: &[JsonValue]) -> (r: ExportRecord)
        ensures
            views_of(r.cells@) == cells_text(values@),
    {
        let mut cells: Vec<String> = Vec::new();
        let mut i: usize = 0;
        while i < values.len()
            invariant
                i <= values@.len(),
                cells@.len() == i,
                views_of(cells@) == cells_text(values@.take(i as int)),
            decreases values@.len() - i,
        {
            let c = json_value_to_cell(&values[i]);
            let ghost before = cells@;
            cells.push(c);
            assert(values@.take(i + 1)[i as int] == values@[i as int]);
            assert forall|k: int| 0 <= k < i + 1 implies #[trigger] views_of(cells@)[k] == cells_text(
                values@.take(i + 1),
            )[k] by {
                if k < i {
                    assert(cells@[k] == before[k]);
                    assert(views_of(before)[k] == cells_text(values@.take(i as int))[k]);
                    assert(values@.take(i as int)[k] == values@.take(i + 1)[k]);
                }
            }
            assert(views_of(cells@) =~= cells_text(values@.take(i + 1)));
            i += 1;
        }
        assert(values@.take(values@.len() as int) =~= values@);
        ExportRecord { cells }
    }

    /// Appends one local-only cell, unchanged.
    pub fn push_local_cell(&mut self, value: &str)
        ensures
            views_of(final(self).cells@) == views_of(old(self).cells@).push(value@),
    {
        let mut owned = String::new();
        push_str(&mut owned, value);
        self.cells.push(owned);
        assert(views_of(self.cells@) =~= views_of(old(self).cells@).push(value@));
    }
}

/// The cells of a JSON row followed by the local cell, if there is one.
pub fn json_record_cells(row: &[JsonValue], local_cell: Option<&str>) -> (cells: Vec<String>)
    ensures
        views_of(cells@) == match local_cell {
            Some(l) => cells_text(row@).push(l@),
            None => cells_text(row@),
        },
{
    let mut record = ExportRecord::from_json_values(row);
    match local_cell {
        Some(l) => record.push_local_cell(l),
        None => {},
    }
    record.cells
}

/// Size and row count of one part.
#[derive(Debug, Clone, Copy, PartialEq, Eq, Structural)]
pub struct PartInfo {
    pub row_count: u64,
    pub byte_len: u64,
}

/// The state a batch starts from; a failed batch returns to it.
#[derive(Debug, Clone, Copy, PartialEq, Eq, Structural)]
pub struct BatchSnapshot {
    pub part_count: usize,
    pub current_bytes: u64,
    pub current_rows: u64,
    pub total_rows: u64,
}

#[derive(Debug, PartialEq, Eq)]
pub enum ExportError {
    NoFields,
    InvalidTextField { index: usize },
    InvalidTempRoot(String),
    CellCountMismatch { record_index: usize, expected: usize, actual: usize },
    Poisoned,
    PartLimitExceeded { max_parts: usize },
    Io(String),
    RollbackFailed { write_error: Box<ExportError>, rollback_error: String },
}

/// What the bookkeeping of an export knows: its schema, its options, and
/// the size and row count of every part.
pub struct LedgerView {
    pub fields: Seq<Seq<char>>,
    pub options: ExportOptions,
    pub preamble_len: u64,
    pub parts: Seq<PartInfo>,
    pub row_count: u64,
    pub poisoned: bool,
}

/// The bookkeeping of a multi-part export: which part each record goes to,
/// and how a failed batch is undone. The part files themselves belong to the
/// caller, which writes what this ledger hands out.
pub struct ExportLedger {
    fields: Vec<String>,
    options: ExportOptions,
    preamble_len: u64,
    parts: Vec<PartInfo>,
    row_count: u64,
    poisoned: bool,
}

impl View for ExportLedger {
    type V = LedgerView;

    closed spec fn view(&self) -> LedgerView {
        LedgerView {
            fields: views_of(self.fields@),
            options: self.options,
            preamble_len: self.preamble_len,
            parts: self.parts@,
            row_count: self.row_count,
            poisoned: self.poisoned,
        }
    }
}

/// The number of rows across `parts`.
pub open spec fn rows_total(parts: Seq<PartInfo>) -> int
    decreases parts.len(),
{
    if parts.len() == 0 {
        0
    } else {
        rows_total(parts.drop_last()) + parts.last().row_count
    }
}

/// What every part starts with: for CSV the optional byte-order mark and
/// the header record, for TXT nothing.
pub open spec fn preamble_text(fields: Seq<Seq<char>>, options: ExportOptions) -> Seq<char> {
    match options.format {
        ExportFormat::Csv => (if options.csv_bom {
            seq!['\u{feff}']
        } else {
            Seq::empty()
        }) + csv_record(fields),
        ExportFormat::Txt => Seq::empty(),
    }
}

pub open spec fn ledger_wf(v: LedgerView) -> bool {
    &&& v.fields.len() >= 1
    &&& 1 <= v.parts.len() <= v.options.max_parts
    &&& v.row_count == rows_total(v.parts)
    &&& v.preamble_len == capped_utf8_len(preamble_text(v.fields, v.options))
    &&& parts_bounded(v.parts, v.options.max_part_bytes)
}

/// Only a part with a single record may pass the size limit, and no part
/// after the first is empty.
pub open spec fn parts_bounded(parts: Seq<PartInfo>, max_part_bytes: u64) -> bool {
    &&& forall|i: int|
        0 <= i < parts.len() && #[trigger] parts[i].row_count >= 2 ==> parts[i].byte_len
            <= max_part_bytes
    &&& forall|i: int| 0 < i < parts.len() ==> #[trigger] parts[i].row_count >= 1
}

/// The first field, from `i` on, that holds a line break.
pub open spec fn first_broken_field(fields: Seq<Seq<char>>, i: int) -> Option<int>
    decreases fields.len() - i,
{
    if i < 0 || i >= fields.len() {
        None
    } else if has_line_break(fields[i]) {
        Some(i)
    } else {
        first_broken_field(fields, i + 1)
    }
}

/// Why a ledger cannot be made for these fields and options, if it cannot.
pub open spec fn ledger_error(fields: Seq<Seq<char>>, options: ExportOptions) -> Option<ExportError> {
    if fields.len() == 0 {
        Some(ExportError::NoFields)
    } else if options.max_parts == 0 {
        Some(ExportError::PartLimitExceeded { max_parts: 0 })
    } else if options.format == ExportFormat::Txt && first_broken_field(fields, 0) is Some {
        Some(ExportError::InvalidTextField { index: first_broken_field(fields, 0)->0 as usize })
    } else {
        None
    }
}

/// The text of the next record: sanitized cells as CSV, or a TXT block that
/// carries the record's number across all parts.
pub open spec fn record_text(v: LedgerView, cells: Seq<Seq<char>>) -> Seq<char> {
    match v.options.format {
        ExportFormat::Csv => csv_record(cells.map_values(|c: Seq<char>| sanitized(c))),
        ExportFormat::Txt => txt_record(v.fields, cells, (v.row_count + 1) as nat),
    }
}

pub open spec fn sat_add(a: u64, b: u64) -> u64 {
    if a + b > u64::MAX {
        u64::MAX
    } else {
        (a + b) as u64
    }
}

/// A record of `len` bytes starts a new part: the current part already holds
/// a row and would grow past the size limit. A lone oversized record stays
/// whole in its part.
pub open spec fn rolls(v: LedgerView, len: u64) -> bool {
    let cur = v.parts.last();
    cur.row_count > 0 && sat_add(cur.byte_len, len) > v.options.max_part_bytes
}

/// The ledger after a record of `len` bytes was placed.
pub open spec fn placed(v: LedgerView, len: u64) -> LedgerView {
    let cur = v.parts.last();
    let parts = if rolls(v, len) {
        v.parts.push(PartInfo { row_count: 1, byte_len: sat_add(v.preamble_len, len) })
    } else {
        v.parts.update(
            v.parts.len() - 1,
            PartInfo { row_count: (cur.row_count + 1) as u64, byte_len: sat_add(cur.byte_len, len) },
        )
    };
    LedgerView {
        fields: v.fields,
        options: v.options,
        preamble_len: v.preamble_len,
        parts,
        row_count: (v.row_count + 1) as u64,
        poisoned: v.poisoned,
    }
}

/// The state a batch started from.
pub open spec fn snapshot_of(v: LedgerView) -> BatchSnapshot {
    BatchSnapshot {
        part_count: v.parts.len() as usize,
        current_bytes: v.parts.last().byte_len,
        current_rows: v.parts.last().row_count,
        total_rows: v.row_count,
    }
}

/// A snapshot that can be restored on this ledger.
pub open spec fn consistent(v: LedgerView, s: BatchSnapshot) -> bool {
    &&& 1 <= s.part_count <= v.parts.len()
    &&& rows_total(v.parts.take(s.part_count - 1)) + s.current_rows == s.total_rows
    &&& s.current_rows >= 2 ==> s.current_bytes <= v.options.max_part_bytes
    &&& s.part_count > 1 ==> s.current_rows >= 1
}

/// The ledger with every part after the snapshot's dropped and the
/// snapshot's part and totals restored.
pub open spec fn rolled_back(v: LedgerView, s: BatchSnapshot) -> LedgerView {
    LedgerView {
        fields: v.fields,
        options: v.options,
        preamble_len: v.preamble_len,
        parts: v.parts.take(s.part_count as int).update(
            s.part_count - 1,
            PartInfo { row_count: s.current_rows, byte_len: s.current_bytes },
        ),
        row_count: s.total_rows,
        poisoned: v.poisoned,
    }
}

/// `after` came from `before` by placing records: nothing but the last part
/// of `before` and the parts after it changed.
pub open spec fn extends(before: LedgerView, after: LedgerView) -> bool {
    &&& after.fields == before.fields
    &&& after.options == before.options
    &&& after.preamble_len == before.preamble_len
    &&& after.poisoned == before.poisoned
    &&& after.parts.len() >= before.parts.len()
    &&& after.parts.take(before.parts.len() - 1) == before.parts.take(before.parts.len() - 1)
}

/// The first record, from `i` on, whose cell count is not `expected`.
pub open spec fn first_mismatch(records: Seq<ExportRecord>, expected: nat, i: int) -> Option<int>
    decreases records.len() - i,
{
    if i < 0 || i >= records.len() {
        None
    } else if records[i].cells@.len() != expected {
        Some(i)
    } else {
        first_mismatch(records, expected, i + 1)
    }
}

/// The first JSON row, from `i` on, whose length is not `expected`.
pub open spec fn first_row_mismatch(rows: Seq<Vec<JsonValue>>, expected: int, i: int) -> Option<int>
    decreases rows.len() - i,
{
    if i < 0 || i >= rows.len() {
        None
    } else if rows[i]@.len() != expected {
        Some(i)
    } else {
        first_row_mismatch(rows, expected, i + 1)
    }
}

pub proof fn lemma_rows_total_update_last(parts: Seq<PartInfo>, p: PartInfo)
    requires
        parts.len() >= 1,
    ensures
        rows_total(parts.update(parts.len() - 1, p)) == rows_total(parts) - parts.last().row_count
            + p.row_count,
{
    assert(parts.update(parts.len() - 1, p).drop_last() =~= parts.drop_last());
}

pub proof fn lemma_rows_total_push(parts: Seq<PartInfo>, p: PartInfo)
    ensures
        rows_total(parts.push(p)) == rows_total(parts) + p.row_count,
{
    assert(parts.push(p).drop_last() =~= parts);
}

pub proof fn lemma_rows_total_nonneg(parts: Seq<PartInfo>)
    ensures
        rows_total(parts) >= 0,
    decreases parts.len(),
{
    if parts.len() > 0 {
        lemma_rows_total_nonneg(parts.drop_last());
    }
}

pub proof fn lemma_rows_total_bound(parts: Seq<PartInfo>, i: int)
    requires
        0 <= i < parts.len(),
    ensures
        parts[i].row_count <= rows_total(parts),
    decreases parts.len(),
{
    lemma_rows_total_nonneg(parts.drop_last());
    if i < parts.len() - 1 {
        lemma_rows_total_bound(parts.drop_last(), i);
        assert(parts.drop_last()[i] == parts[i]);
    }
}

/// A failed batch is undone exactly: whatever records were placed after a
/// snapshot was taken, rolling back to it restores the ledger as it was.
pub proof fn lemma_rollback_restores(before: LedgerView, after: LedgerView)
    requires
        ledger_wf(before),
        ledger_wf(after),
        extends(before, after),
    ensures
        consistent(after, snapshot_of(before)),
        rolled_back(after, snapshot_of(before)) == before,
{
    let n = before.parts.len();
    assert(before.parts.drop_last() =~= before.parts.take(n - 1));
    assert(after.parts.take(n - 1) == before.parts.take(n - 1));
    let r = rolled_back(after, snapshot_of(before));
    assert(r.parts =~= before.parts);
    if n > 1 {
        assert(before.parts[n - 1].row_count >= 1);
    }
    if before.parts[n - 1].row_count >= 2 {
        assert(before.parts[n - 1].byte_len <= before.options.max_part_bytes);
    }
}

/// Sanitizing a cell twice is sanitizing it once, and a sanitized cell never
/// reads as a formula.
pub proof fn lemma_sanitized_is_safe(cell: Seq<char>)
    ensures
        !formula_like(sanitized(cell)),
        sanitized(sanitized(cell)) == sanitized(cell),
{
    if formula_like(cell) {
        assert((seq!['\t'] + cell)[0] == '\t');
    }
}

fn first_broken_field_exec(fields: &[String]) -> (r: Option<usize>)
    ensures
        match r {
            Some(i) => first_broken_field(views_of(fields@), 0) == Some(i as int),
            None => first_broken_field(views_of(fields@), 0) is None,
        },
{
    let ghost fs = views_of(fields@);
    let mut i: usize = 0;
    while i < fields.len()
        invariant
            i <= fields@.len(),
            fs == views_of(fields@),
            first_broken_field(fs, 0) == first_broken_field(fs, i as int),
        decreases fields@.len() - i,
    {
        let v = chars_of(fields[i].as_str());
        if has_line_break_exec(v.as_slice()) {
            return Some(i);
        }
        i += 1;
    }
    None
}

fn preamble_string(fields: &[String], options: ExportOptions) -> (s: String)
    ensures
        s@ == preamble_text(views_of(fields@), options),
{
    let mut s = String::new();
    match options.format {
        ExportFormat::Csv => {
            if options.csv_bom {
                push_char(&mut s, '\u{feff}');
            }
            let header = encode_csv_record(fields);
            push_str(&mut s, header.as_str());
        },
        ExportFormat::Txt => {},
    }
    assert(s@ =~= preamble_text(views_of(fields@), options));
    s
}

/// Where the caller puts one record: in a new part (written first with the
/// preamble) or in the current one.
pub struct RecordPlacement {
    pub new_part: bool,
    pub text: String,
}

/// The byte length of the next record's text.
pub open spec fn record_len(v: LedgerView, cells: Seq<Seq<char>>) -> u64 {
    capped_utf8_len(record_text(v, cells)) as u64
}

impl ExportLedger {
    pub open spec fn wf(&self) -> bool {
        ledger_wf(self@)
    }

    /// A ledger with one empty part, or the reason the schema is refused.
    pub fn new(fields: Vec<String>, options: ExportOptions) -> (r: Result<ExportLedger, ExportError>)
        ensures
            match ledger_error(views_of(fields@), options) {
                Some(e) => r == Err::<ExportLedger, ExportError>(e),
                None => (r matches Ok(l) && l.wf() && l@.fields == views_of(fields@) && l@.options
                    == options && l@.parts == seq![PartInfo { row_count: 0, byte_len: l@.preamble_len }]
                    && l@.row_count == 0 && !l@.poisoned),
            },
    {
        if fields.len() == 0 {
            return Err(ExportError::NoFields);
        }
        if options.max_parts == 0 {
            return Err(ExportError::PartLimitExceeded { max_parts: 0 });
        }
        if options.format == ExportFormat::Txt {
            match first_broken_field_exec(fields.as_slice()) {
                Some(index) => {
                    return Err(ExportError::InvalidTextField { index });
                },
                None => {},
            }
        }
        let preamble = preamble_string(fields.as_slice(), options);
        let preamble_len = utf8_len_capped(chars_of(preamble.as_str()).as_slice()) as u64;
        let mut parts: Vec<PartInfo> = Vec::new();
        parts.push(PartInfo { row_count: 0, byte_len: preamble_len });
        let ledger = ExportLedger {
            fields,
            options,
            preamble_len,
            parts,
            row_count: 0,
            poisoned: false,
        };
        assert(ledger@.parts.drop_last() =~= Seq::<PartInfo>::empty());
        assert(rows_total(Seq::<PartInfo>::empty()) == 0);
        assert(rows_total(ledger@.parts) == 0);
        assert(ledger_wf(ledger@));
        assert(ledger_error(views_of(ledger.fields@), options) is None);
        Ok(ledger)
    }

    /// The output field names, in order.
    pub fn fields(&self) -> (r: &[String])
        ensures
            views_of(r@) == self@.fields,
    {
        self.fields.as_slice()
    }

    pub fn format(&self) -> (f: ExportFormat)
        ensures
            f == self@.options.format,
    {
        self.options.format
    }

    pub fn options(&self) -> (o: ExportOptions)
        ensures
            o == self@.options,
    {
        self.options
    }

    /// Records placed across all parts.
    pub fn row_count(&self) -> (n: u64)
        ensures
            n == self@.row_count,
    {
        self.row_count
    }

    pub fn part_count(&self) -> (n: usize)
        ensures
            n == self@.parts.len(),
    {
        self.parts.len()
    }

    pub fn is_poisoned(&self) -> (b: bool)
        ensures
            b == self@.poisoned,
    {
        self.poisoned
    }

    /// Size and row count of every part, in order.
    pub fn parts(&self) -> (r: Vec<PartInfo>)
        ensures
            r@ == self@.parts,
    {
        let mut r: Vec<PartInfo> = Vec::new();
        let mut i: usize = 0;
        while i < self.parts.len()
            invariant
                i <= self.parts@.len(),
                r@ == self.parts@.take(i as int),
            decreases self.parts@.len() - i,
        {
            r.push(self.parts[i]);
            assert(r@ =~= self.parts@.take(i + 1));
            i += 1;
        }
        assert(self.parts@.take(self.parts@.len() as int) =~= self.parts@);
        r
    }

    /// What every part starts with.
    pub fn preamble(&self) -> (s: String)
        ensures
            s@ == preamble_text(self@.fields, self@.options),
    {
        preamble_string(self.fields.as_slice(), self.options)
    }

    /// The text of the next record.
    pub fn encode_record(&self, cells: &[String]) -> (s: String)
        requires
            self.wf(),
            self@.row_count < u64::MAX,
        ensures
            s@ == record_text(self@, views_of(cells@)),
    {
        match self.options.format {
            ExportFormat::Csv => {
                let ghost cs = views_of(cells@);
                let mut clean: Vec<String> = Vec::new();
                let mut i: usize = 0;
                while i < cells.len()
                    invariant
                        i <= cells@.len(),
                        clean@.len() == i,
                        cs == views_of(cells@),
                        forall|k: int| 0 <= k < i ==> #[trigger] clean@[k]@ == sanitized(cs[k]),
                    decreases cells@.len() - i,
                {
                    clean.push(sanitize_cell(cells[i].as_str()));
                    i += 1;
                }
                assert(views_of(clean@) =~= cs.map_values(|c: Seq<char>| sanitized(c)));
                encode_csv_record(clean.as_slice())
            },
            ExportFormat::Txt => encode_txt_record(
                self.fields.as_slice(),
                cells,
                self.row_count + 1,
            ),
        }
    }

    /// Accounts for a record of `len` bytes: it goes to a new part when the
    /// current one already holds a row and would grow past the size limit,
    /// and is refused when that new part would pass the part limit.
    /// `Ok(true)` asks the caller to start a new part before writing.
    pub fn place_record(&mut self, len: u64) -> (r: Result<bool, ExportError>)
        requires
            old(self).wf(),
            old(self)@.row_count < u64::MAX,
        ensures
            final(self).wf(),
            extends(old(self)@, final(self)@),
            rolls(old(self)@, len) && old(self)@.parts.len() >= old(self)@.options.max_parts ==> r
                == Err::<bool, ExportError>(
                ExportError::PartLimitExceeded { max_parts: old(self)@.options.max_parts },
            ) && final(self)@ == old(self)@,
            !(rolls(old(self)@, len) && old(self)@.parts.len() >= old(self)@.options.max_parts) ==> r
                == Ok::<bool, ExportError>(rolls(old(self)@, len)) && final(self)@ == placed(
                old(self)@,
                len,
            ),
    {
        let ghost v = self@;
        let last = self.parts.len() - 1;
        let cur = self.parts[last];
        proof {
            lemma_rows_total_bound(self.parts@, last as int);
            assert(self.parts@.take(last as int) =~= self.parts@.take(last as int));
        }
        let roll = cur.row_count > 0 && cur.byte_len.saturating_add(len) > self.options.max_part_bytes;
        if roll {
            if self.parts.len() >= self.options.max_parts {
                return Err(ExportError::PartLimitExceeded { max_parts: self.options.max_parts });
            }
            let p = PartInfo { row_count: 1, byte_len: self.preamble_len.saturating_add(len) };
            proof {
                lemma_rows_total_push(self.parts@, p);
            }
            self.parts.push(p);
        } else {
            let p = PartInfo { row_count: cur.row_count + 1, byte_len: cur.byte_len.saturating_add(len) };
            proof {
                lemma_rows_total_update_last(self.parts@, p);
            }
            self.parts.set(last, p);
        }
        self.row_count = self.row_count + 1;
        assert(self.parts@.take(last as int) =~= v.parts.take(last as int));
        assert forall|i: int| 0 <= i < self.parts@.len() && #[trigger] self.parts@[i].row_count >= 2 implies self.parts@[i].byte_len
            <= self.options.max_part_bytes by {
            if i < last {
                assert(self.parts@[i] == v.parts[i]);
            }
        }
        assert forall|i: int| 0 < i < self.parts@.len() implies #[trigger] self.parts@[i].row_count >= 1 by {
            if i < last {
                assert(self.parts@[i] == v.parts[i]);
            }
        }
        assert(self@.parts =~= placed(v, len).parts);
        Ok(roll)
    }

    /// Encodes the next record and accounts for it (see `place_record`).
    pub fn write_record(&mut self, cells: &[String]) -> (r: Result<RecordPlacement, ExportError>)
        requires
            old(self).wf(),
            old(self)@.row_count < u64::MAX,
        ensures
            final(self).wf(),
            extends(old(self)@, final(self)@),
            ({
                let len = record_len(old(self)@, views_of(cells@));
                let refused = rolls(old(self)@, len) && old(self)@.parts.len()
                    >= old(self)@.options.max_parts;
                &&& refused ==> r == Err::<RecordPlacement, ExportError>(
                    ExportError::PartLimitExceeded { max_parts: old(self)@.options.max_parts },
                ) && final(self)@ == old(self)@
                &&& !refused ==> (r matches Ok(p) && p.new_part == rolls(old(self)@, len) && p.text@
                    == record_text(old(self)@, views_of(cells@)) && final(self)@ == placed(
                    old(self)@,
                    len,
                ))
            }),
    {
        let text = self.encode_record(cells);
        let n = utf8_len_capped(chars_of(text.as_str()).as_slice());
        match self.place_record(n as u64) {
            Ok(new_part) => Ok(RecordPlacement { new_part, text }),
            Err(e) => Err(e),
        }
    }

    /// The state a batch starts from, unless an earlier rollback failed.
    pub fn begin_batch(&self) -> (r: Result<BatchSnapshot, ExportError>)
        requires
            self.wf(),
        ensures
            self@.poisoned ==> r == Err::<BatchSnapshot, ExportError>(ExportError::Poisoned),
            !self@.poisoned ==> r == Ok::<BatchSnapshot, ExportError>(snapshot_of(self@)),
    {
        if self.poisoned {
            return Err(ExportError::Poisoned);
        }
        let last = self.parts.len() - 1;
        Ok(
            BatchSnapshot {
                part_count: self.parts.len(),
                current_bytes: self.parts[last].byte_len,
                current_rows: self.parts[last].row_count,
                total_rows: self.row_count,
            },
        )
    }

    /// Undoes a batch: drops the parts it started and restores the part the
    /// snapshot was taken in.
    pub fn rollback(&mut self, snapshot: BatchSnapshot)
        requires
            old(self).wf(),
            consistent(old(self)@, snapshot),
        ensures
            final(self).wf(),
            final(self)@ == rolled_back(old(self)@, snapshot),
    {
        let ghost v = self@;
        while self.parts.len() > snapshot.part_count
            invariant
                snapshot.part_count <= self.parts@.len() <= v.parts.len(),
                self.parts@ == v.parts.take(self.parts@.len() as int),
                self@.fields == v.fields,
                self.options == v.options,
                self.preamble_len == v.preamble_len,
                self.row_count == v.row_count,
                self.poisoned == v.poisoned,
            decreases self.parts@.len(),
        {
            self.parts.pop();
            assert(self.parts@ =~= v.parts.take(self.parts@.len() as int));
        }
        let p = PartInfo { row_count: snapshot.current_rows, byte_len: snapshot.current_bytes };
        let ghost kept = self.parts@;
        assert(kept.drop_last() =~= v.parts.take(snapshot.part_count - 1));
        self.parts.set(snapshot.part_count - 1, p);
        self.row_count = snapshot.total_rows;
        assert(self.parts@.drop_last() =~= kept.drop_last());
        assert(rows_total(self.parts@) == rows_total(self.parts@.drop_last()) + p.row_count);
        assert(self@.parts =~= rolled_back(v, snapshot).parts);
        assert forall|i: int| 0 <= i < self.parts@.len() && #[trigger] self.parts@[i].row_count >= 2 implies self.parts@[i].byte_len
            <= self.options.max_part_bytes by {
            if i < snapshot.part_count - 1 {
                assert(self.parts@[i] == v.parts[i]);
            }
        }
        assert forall|i: int| 0 < i < self.parts@.len() implies #[trigger] self.parts@[i].row_count >= 1 by {
            if i < snapshot.part_count - 1 {
                assert(self.parts@[i] == v.parts[i]);
            }
        }
    }

    /// Marks the ledger unusable after a rollback of the files failed.
    pub fn poison(&mut self)
        requires
            old(self).wf(),
        ensures
            final(self).wf(),
            final(self)@ == (LedgerView { poisoned: true, ..old(self)@ }),
    {
        self.poisoned = true;
    }

    /// Checks a batch of records before any of it is written: the ledger must
    /// be usable and every record must have one cell per field.
    pub fn check_batch(&self, records: &[ExportRecord]) -> (r: Result<(), ExportError>)
        ensures
            self@.poisoned ==> r == Err::<(), ExportError>(ExportError::Poisoned),
            !self@.poisoned ==> match first_mismatch(records@, self@.fields.len(), 0) {
                Some(i) => r == Err::<(), ExportError>(
                    ExportError::CellCountMismatch {
                        record_index: (i + 1) as usize,
                        expected: self@.fields.len() as usize,
                        actual: records@[i].cells@.len() as usize,
                    },
                ),
                None => r == Ok::<(), ExportError>(()),
            },
    {
        if self.poisoned {
            return Err(ExportError::Poisoned);
        }
        let expected = self.fields.len();
        assert(views_of(self.fields@).len() == self.fields@.len());
        let mut i: usize = 0;
        while i < records.len()
            invariant
                i <= records@.len(),
                !self@.poisoned,
                expected == self@.fields.len(),
                first_mismatch(records@, expected as nat, 0) == first_mismatch(
                    records@,
                    expected as nat,
                    i as int,
                ),
            decreases records@.len() - i,
        {
            if records[i].cells.len() != expected {
                return Err(
                    ExportError::CellCountMismatch {
                        record_index: i + 1,
                        expected,
                        actual: records[i].cells.len(),
                    },
                );
            }
            i += 1;
        }
        Ok(())
    }

    /// Checks a batch of JSON rows before any of it is written: every row
    /// plus the local cell, if there is one, must fill the fields, and the
    /// ledger must be usable.
    pub fn check_json_batch(&self, rows: &[Vec<JsonValue>], has_local_cell: bool) -> (r: Result<
        (),
        ExportError,
    >)
        requires
            forall|i: int| 0 <= i < rows@.len() ==> #[trigger] rows@[i]@.len() < usize::MAX,
        ensures
            ({
                let local: int = if has_local_cell {
                    1
                } else {
                    0
                };
                let remote = if self@.fields.len() >= local {
                    self@.fields.len() - local
                } else {
                    0
                };
                match first_row_mismatch(rows@, remote, 0) {
                    Some(i) => r == Err::<(), ExportError>(
                        ExportError::CellCountMismatch {
                            record_index: (i + 1) as usize,
                            expected: self@.fields.len() as usize,
                            actual: (rows@[i]@.len() + local) as usize,
                        },
                    ),
                    None => r == (if self@.poisoned {
                        Err::<(), ExportError>(ExportError::Poisoned)
                    } else {
                        Ok::<(), ExportError>(())
                    }),
                }
            }),
    {
        let local: usize = if has_local_cell {
            1
        } else {
            0
        };
        let expected = self.fields.len();
        assert(views_of(self.fields@).len() == self.fields@.len());
        let remote = expected.saturating_sub(local);
        let mut i: usize = 0;
        while i < rows.len()
            invariant
                i <= rows@.len(),
                remote == (if expected >= local {
                    expected - local
                } else {
                    0
                }),
                first_row_mismatch(rows@, remote as int, 0) == first_row_mismatch(
                    rows@,
                    remote as int,
                    i as int,
                ),
                forall|j: int| 0 <= j < rows@.len() ==> #[trigger] rows@[j]@.len() < usize::MAX,
                expected == self@.fields.len(),
                local == (if has_local_cell {
                    1usize
                } else {
                    0usize
                }),
            decreases rows@.len() - i,
        {
            assert(rows@[i as int]@.len() < usize::MAX);
            if rows[i].len() != remote {
                return Err(
                    ExportError::CellCountMismatch {
                        record_index: i + 1,
                        expected,
                        actual: rows[i].len() + local,
                    },
                );
            }
            i += 1;
        }
        if self.poisoned {
            return Err(ExportError::Poisoned);
        }
        Ok(())
    }
}

/// Values with the same JSON texts make the same array text.
pub proof fn lemma_json_items_text(a: Seq<JsonValue>, b: Seq<JsonValue>)
    requires
        a.len() == b.len(),
        forall|k: int| 0 <= k < a.len() ==> #[trigger] json_text(a[k]) == json_text(b[k]),
    ensures
        json_items(a) == json_items(b),
    decreases a.len(),
{
    if a.len() > 1 {
        assert forall|k: int| 0 <= k < a.drop_last().len() implies #[trigger] json_text(
            a.drop_last()[k],
        ) == json_text(b.drop_last()[k]) by {
            assert(json_text(a[k]) == json_text(b[k]));
        }
        lemma_json_items_text(a.drop_last(), b.drop_last());
        assert(json_text(a[a.len() - 1]) == json_text(b[b.len() - 1]));
    } else if a.len() == 1 {
        assert(json_text(a[0]) == json_text(b[0]));
    }
}

/// Members with the same keys and value texts make the same object text.
pub proof fn lemma_json_members_text(a: Seq<(String, JsonValue)>, b: Seq<(String, JsonValue)>)
    requires
        a.len() == b.len(),
        forall|k: int| 0 <= k < a.len() ==> (#[trigger] a[k]).0@ == b[k].0@,
        forall|k: int| 0 <= k < a.len() ==> json_text((#[trigger] a[k]).1) == json_text(b[k].1),
    ensures
        json_members(a) == json_members(b),
    decreases a.len(),
{
    if a.len() > 1 {
        assert forall|k: int| 0 <= k < a.drop_last().len() implies (#[trigger] a.drop_last()[k]).0@
            == b.drop_last()[k].0@ && json_text(a.drop_last()[k].1) == json_text(
            b.drop_last()[k].1,
        ) by {
            assert(a[k].0@ == b[k].0@);
            assert(json_text(a[k].1) == json_text(b[k].1));
        }
        lemma_json_members_text(a.drop_last(), b.drop_last());
        assert(a[a.len() - 1].0@ == b[b.len() - 1].0@);
        assert(json_text(a[a.len() - 1].1) == json_text(b[b.len() - 1].1));
    } else if a.len() == 1 {
        assert(a[0].0@ == b[0].0@);
        assert(json_text(a[0].1) == json_text(b[0].1));
    }
}

/// The message shown for an export error.
pub open spec fn export_error_message(e: ExportError) -> Seq<char>
    decreases e,
{
    match e {
        ExportError::NoFields => "at least one output field is required"@,
        ExportError::InvalidTextField { index } => "TXT field "@ + decimal(index as nat)
            + " contains a line break"@,
        ExportError::InvalidTempRoot(path) => "temporary root is not a directory: "@ + path@,
        ExportError::CellCountMismatch { record_index, expected, actual } => "record "@ + decimal(
            record_index as nat,
        ) + " has "@ + decimal(actual as nat) + " cells, but the export has "@ + decimal(
            expected as nat,
        ) + " fields"@,
        ExportError::Poisoned => "the exporter is unusable because an earlier rollback failed"@,
        ExportError::PartLimitExceeded { max_parts } =>
            "result reached the configured maximum of "@ + decimal(max_parts as nat)
            + " file parts"@,
        ExportError::Io(message) => "file operation failed: "@ + message@,
        ExportError::RollbackFailed { write_error, rollback_error } => "batch write failed ("@
            + export_error_message(*write_error) + "); rollback also failed ("@ + rollback_error@
            + ")"@,
    }
}

impl ExportError {
    pub fn message(&self) -> (s: String)
        ensures
            s@ == export_error_message(*self),
        decreases self,
    {
        let mut s = String::new();
        match self {
            ExportError::NoFields => push_str(&mut s, "at least one output field is required"),
            ExportError::InvalidTextField { index } => {
                push_str(&mut s, "TXT field ");
                push_decimal(&mut s, *index as u64);
                push_str(&mut s, " contains a line break");
            },
            ExportError::InvalidTempRoot(path) => {
                push_str(&mut s, "temporary root is not a directory: ");
                push_str(&mut s, path.as_str());
            },
            ExportError::CellCountMismatch { record_index, expected, actual } => {
                push_str(&mut s, "record ");
                push_decimal(&mut s, *record_index as u64);
                push_str(&mut s, " has ");
                push_decimal(&mut s, *actual as u64);
                push_str(&mut s, " cells, but the export has ");
                push_decimal(&mut s, *expected as u64);
                push_str(&mut s, " fields");
            },
            ExportError::Poisoned => push_str(
                &mut s,
                "the exporter is unusable because an earlier rollback failed",
            ),
            ExportError::PartLimitExceeded { max_parts } => {
                push_str(&mut s, "result reached the configured maximum of ");
                push_decimal(&mut s, *max_parts as u64);
                push_str(&mut s, " file parts");
            },
            ExportError::Io(message) => {
                push_str(&mut s, "file operation failed: ");
                push_str(&mut s, message.as_str());
            },
            ExportError::RollbackFailed { write_error, rollback_error } => {
                push_str(&mut s, "batch write failed (");
                let inner = write_error.message();
                push_str(&mut s, inner.as_str());
                push_str(&mut s, "); rollback also failed (");
                push_str(&mut s, rollback_error.as_str());
                push_str(&mut s, ")");
            },
        }
        assert(s@ =~= export_error_message(*self));
        s
    }
}

} // verus!
