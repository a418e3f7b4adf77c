use cyberscope::export::{
    json_record_cells, sanitize_cell, ExportError, ExportLedger, ExportOptions, ExportRecord,
};
use cyberscope::fofa::models::JsonValue;

const UTF8_BOM: &[u8] = b"\xEF\xBB\xBF";

/// Part files kept in memory, written the way the ledger directs.
struct MemoryExport {
    ledger: ExportLedger,
    parts: Vec<Vec<u8>>,
    fail_after_records: Option<usize>,
}

impl MemoryExport {
    fn new(fields: Vec<String>, options: ExportOptions) -> Result<Self, ExportError> {
        let ledger = ExportLedger::new(fields, options)?;
        let preamble = ledger.preamble().into_bytes();
        Ok(Self {
            ledger,
            parts: vec![preamble],
            fail_after_records: None,
        })
    }

    fn write_cells(&mut self, rows: Vec<Vec<String>>) -> Result<(), ExportError> {
        let snapshot = self.ledger.begin_batch()?;
        for (index, cells) in rows.iter().enumerate() {
            if self.fail_after_records == Some(index) {
                self.rollback(snapshot);
                return Err(ExportError::Io("injected write failure".to_owned()));
            }
            match self.ledger.write_record(cells) {
                Ok(placement) => {
                    if placement.new_part {
                        self.parts.push(self.ledger.preamble().into_bytes());
                    }
                    self.parts
                        .last_mut()
                        .unwrap()
                        .extend_from_slice(placement.text.as_bytes());
                }
                Err(error) => {
                    self.rollback(snapshot);
                    return Err(error);
                }
            }
        }
        Ok(())
    }

    fn rollback(&mut self, snapshot: cyberscope::export::BatchSnapshot) {
        self.ledger.rollback(snapshot);
        self.parts.truncate(snapshot.part_count);
        self.parts[snapshot.part_count - 1].truncate(snapshot.current_bytes as usize);
    }

    fn write_batch(&mut self, records: &[ExportRecord]) -> Result<(), ExportError> {
        self.ledger.check_batch(records)?;
        self.write_cells(records.iter().map(|r| r.cells.clone()).collect())
    }

    fn write_json_batch(
        &mut self,
        rows: &[Vec<JsonValue>],
        local_cell: Option<&str>,
    ) -> Result<(), ExportError> {
        self.ledger.check_json_batch(rows, local_cell.is_some())?;
        self.write_cells(rows.iter().map(|row| json_record_cells(row, local_cell)).collect())
    }
}

fn record(cells: &[&str]) -> ExportRecord {
    ExportRecord::new(cells.iter().map(|cell| (*cell).to_owned()).collect())
}

fn options(csv_bom: bool, max_part_bytes: u64, max_parts: usize) -> ExportOptions {
    ExportOptions {
        csv_bom,
        max_part_bytes,
        max_parts,
        ..ExportOptions::default()
    }
}

#[test]
fn csv_uses_declared_order_bom_and_standard_escaping() {
    let mut exporter = MemoryExport::new(
        vec!["title".into(), "source_query".into(), "header".into()],
        ExportOptions::default(),
    )
    .unwrap();
    exporter
        .write_batch(&[record(&[
            "hello, \"FOFA\"",
            "title=\"管理后台\"",
            "line one\nline two",
        ])])
        .unwrap();

    let bytes = &exporter.parts[0];
    assert!(bytes.starts_with(UTF8_BOM));
    let body = std::str::from_utf8(&bytes[UTF8_BOM.len()..]).unwrap();
    assert_eq!(
        body,
        "title,source_query,header\n\"hello, \"\"FOFA\"\"\",\"title=\"\"管理后台\"\"\",\"line one\nline two\"\n"
    );
    assert_eq!(exporter.ledger.row_count(), 1);
}

#[test]
fn csv_bom_can_be_disabled() {
    let mut exporter = MemoryExport::new(vec!["ip".into()], ExportOptions::csv(false)).unwrap();
    exporter.write_batch(&[record(&["1.2.3.4"])]).unwrap();
    assert_eq!(exporter.parts[0], b"ip\n1.2.3.4\n");
}

#[test]
fn txt_preserves_multiline_cells_and_global_record_numbers() {
    let mut exporter = MemoryExport::new(
        vec!["ip".into(), "banner".into(), "source_cidr".into()],
        ExportOptions::txt(),
    )
    .unwrap();
    exporter
        .write_batch(&[
            record(&["1.2.3.4", "SSH-2.0\nready", "1.2.3.0/24"]),
            record(&["5.6.7.8", "HTTP", "5.6.7.0/24"]),
        ])
        .unwrap();

    let text = String::from_utf8(exporter.parts[0].clone()).unwrap();
    assert_eq!(
        text,
        "========== RECORD 000001 ==========\nip: 1.2.3.4\nbanner:\nSSH-2.0\nready\nsource_cidr: 1.2.3.0/24\n\n========== RECORD 000002 ==========\nip: 5.6.7.8\nbanner: HTTP\nsource_cidr: 5.6.7.0/24\n\n"
    );
}

#[test]
fn exact_limit_stays_in_one_part_and_next_byte_rolls() {
    // Header and each row are two bytes.
    let mut exporter = MemoryExport::new(vec!["v".into()], options(false, 6, 10)).unwrap();
    exporter
        .write_batch(&[record(&["x"]), record(&["x"]), record(&["x"])])
        .unwrap();

    assert_eq!(exporter.ledger.part_count(), 2);
    assert_eq!(exporter.parts[0], b"v\nx\nx\n");
    assert_eq!(exporter.parts[1], b"v\nx\n");
    assert_eq!(
        exporter
            .ledger
            .parts()
            .iter()
            .map(|part| part.row_count)
            .collect::<Vec<_>>(),
        vec![2, 1]
    );
}

#[test]
fn oversized_record_is_never_truncated_or_preceded_by_empty_part() {
    let huge = "a".repeat(100);
    let mut exporter = MemoryExport::new(vec!["v".into()], options(false, 4, 10)).unwrap();
    exporter
        .write_batch(&[ExportRecord::new(vec![huge.clone()])])
        .unwrap();

    assert_eq!(exporter.ledger.part_count(), 1);
    assert_eq!(exporter.parts[0], format!("v\n{huge}\n").into_bytes());
    assert!(exporter.ledger.parts()[0].byte_len > 4);

    exporter.write_batch(&[record(&["b"])]).unwrap();
    assert_eq!(exporter.ledger.part_count(), 2);
    assert_eq!(exporter.parts[1], b"v\nb\n");
}

#[test]
fn mismatch_is_rejected_before_any_batch_cell_is_written() {
    let mut exporter = MemoryExport::new(
        vec!["ip".into(), "source_query".into()],
        ExportOptions::csv(false),
    )
    .unwrap();
    let before = exporter.parts[0].clone();

    let error = exporter
        .write_batch(&[record(&["ok", "q"]), record(&["missing"])])
        .unwrap_err();
    assert!(matches!(
        error,
        ExportError::CellCountMismatch {
            record_index: 2,
            expected: 2,
            actual: 1
        }
    ));
    assert_eq!(exporter.parts[0], before);
    assert_eq!(exporter.ledger.row_count(), 0);
}

#[test]
fn failed_batch_rolls_back_rows_and_all_new_parts() {
    let mut exporter = MemoryExport::new(vec!["v".into()], options(false, 6, 10)).unwrap();
    exporter.write_batch(&[record(&["a"])]).unwrap();
    let before = exporter.parts[0].clone();

    // Force a part rollover before injecting a write failure.
    exporter.fail_after_records = Some(2);
    let error = exporter
        .write_batch(&[record(&["b"]), record(&["c"]), record(&["d"])])
        .unwrap_err();
    assert!(matches!(error, ExportError::Io(_)));
    assert_eq!(exporter.parts.len(), 1);
    assert_eq!(exporter.ledger.part_count(), 1);
    assert_eq!(exporter.parts[0], before);
    assert_eq!(exporter.ledger.row_count(), 1);
    assert_eq!(exporter.ledger.parts()[0].row_count, 1);

    exporter.fail_after_records = None;
    exporter.write_batch(&[record(&["z"])]).unwrap();
    assert_eq!(exporter.ledger.row_count(), 2);
}

#[test]
fn json_cells_and_local_cells_are_explicit() {
    let mut record = ExportRecord::from_json_values(&[
        JsonValue::Null,
        JsonValue::Str("原样".into()),
        JsonValue::Number("443".into()),
        JsonValue::Bool(true),
    ]);
    record.push_local_cell("source");
    assert_eq!(record.cells, ["", "原样", "443", "true", "source"]);
}

#[test]
fn csv_injection_cells_are_neutralized_with_a_tab_prefix() {
    // Formula-like values receive a neutral tab prefix.
    for hostile in ["=cmd", "+1", "-2", "@x", "\n=1", "\r=2"] {
        let sanitized = sanitize_cell(hostile);
        assert!(sanitized.starts_with('\t'), "not neutralized: {hostile:?}");
        assert_ne!(sanitized.as_str(), hostile);
    }
    // Existing prefixes are preserved.
    assert_eq!(sanitize_cell("\t=1"), "\t=1");
    // Ordinary values are unchanged.
    for benign in ["1.2.3.4", "host", "管理后台", "", "a=b", "443"] {
        assert_eq!(sanitize_cell(benign), benign);
    }
}

#[test]
fn json_string_cells_pass_through_csv_injection_sanitization() {
    let record = ExportRecord::from_json_values(&[JsonValue::Str("=SUM(A1)".into())]);
    assert_eq!(record.cells, ["\t=SUM(A1)"]);
    let nested = ExportRecord::from_json_values(&[JsonValue::Array(vec![
        JsonValue::Number("1".into()),
        JsonValue::Str("ok".into()),
    ])]);
    assert_eq!(nested.cells, ["[1,\"ok\"]"]);
}

#[test]
fn json_batch_streams_conversion_and_appends_one_local_cell() {
    let mut exporter = MemoryExport::new(
        vec!["ip".into(), "port".into(), "source_query".into()],
        ExportOptions::csv(false),
    )
    .unwrap();
    exporter
        .write_json_batch(
            &[vec![
                JsonValue::Str("192.0.2.1".into()),
                JsonValue::Number("443".into()),
            ]],
            Some(r#"port="443""#),
        )
        .unwrap();

    assert_eq!(
        exporter.parts[0],
        b"ip,port,source_query\n192.0.2.1,443,\"port=\"\"443\"\"\"\n"
    );
}

#[test]
fn write_json_batch_neutralizes_formula_cells() {
    let mut exporter =
        MemoryExport::new(vec!["title".into()], ExportOptions::csv(false)).unwrap();
    exporter
        .write_json_batch(
            &[vec![JsonValue::Str("=HYPERLINK(\"http://evil\")".into())]],
            None,
        )
        .unwrap();

    // The CSV writer quotes the formula; the tab neutralizes it.
    assert_eq!(
        exporter.parts[0],
        b"title\n\"\t=HYPERLINK(\"\"http://evil\"\")\"\n"
    );
}

#[test]
fn write_batch_neutralizes_raw_cells() {
    let mut exporter =
        MemoryExport::new(vec!["title".into()], ExportOptions::csv(false)).unwrap();
    exporter
        .write_batch(&[record(&["=HYPERLINK(\"http://evil\")"])])
        .unwrap();

    assert_eq!(
        exporter.parts[0],
        b"title\n\"\t=HYPERLINK(\"\"http://evil\"\")\"\n"
    );
}

#[test]
fn hostile_local_cells_are_also_neutralized() {
    // Local columns are user-controlled and require the same protection.
    let mut exporter = MemoryExport::new(
        vec!["ip".into(), "source_query".into()],
        ExportOptions::csv(false),
    )
    .unwrap();
    exporter
        .write_json_batch(
            &[vec![JsonValue::Str("192.0.2.1".into())]],
            Some("=cmd|' /C calc'!A0"),
        )
        .unwrap();

    // A tab prefix is not quoted; verify it precedes the formula marker.
    assert_eq!(
        exporter.parts[0],
        b"ip,source_query\n192.0.2.1,\t=cmd|' /C calc'!A0\n"
    );
}

#[test]
fn part_limit_rolls_back_only_the_rejected_batch() {
    let mut exporter = MemoryExport::new(vec!["v".into()], options(false, 4, 1)).unwrap();
    exporter.write_batch(&[record(&["a"])]).unwrap();
    let before = exporter.parts[0].clone();

    let error = exporter.write_batch(&[record(&["b"])]).unwrap_err();
    assert!(matches!(
        error,
        ExportError::PartLimitExceeded { max_parts: 1 }
    ));
    assert_eq!(exporter.ledger.row_count(), 1);
    assert_eq!(exporter.parts[0], before);
}

#[test]
fn constructor_rejects_invalid_schema_and_root() {
    assert!(matches!(
        ExportLedger::new(vec![], ExportOptions::default()),
        Err(ExportError::NoFields)
    ));
    assert!(matches!(
        ExportLedger::new(vec!["bad\nfield".into()], ExportOptions::txt()),
        Err(ExportError::InvalidTextField { index: 0 })
    ));
    assert!(matches!(
        ExportLedger::new(vec!["ip".into()], options(true, 4, 0)),
        Err(ExportError::PartLimitExceeded { max_parts: 0 })
    ));
}

#[test]
fn readable_while_alive_and_open_file_position_survives_rollback() {
    let mut exporter = MemoryExport::new(vec!["v".into()], ExportOptions::csv(false)).unwrap();
    exporter.write_batch(&[record(&["a"])]).unwrap();
    exporter.fail_after_records = Some(1);
    let _ = exporter.write_batch(&[record(&["b"]), record(&["c"])]);
    exporter.fail_after_records = None;
    exporter.write_batch(&[record(&["d"])]).unwrap();

    assert_eq!(String::from_utf8(exporter.parts[0].clone()).unwrap(), "v\na\nd\n");
}

#[test]
fn a_poisoned_ledger_refuses_batches() {
    let mut ledger = ExportLedger::new(vec!["v".into()], ExportOptions::csv(false)).unwrap();
    ledger.poison();
    assert!(matches!(ledger.begin_batch(), Err(ExportError::Poisoned)));
    assert!(matches!(
        ledger.check_batch(&[record(&["a"])]),
        Err(ExportError::Poisoned)
    ));
    assert_eq!(
        ExportError::RollbackFailed {
            write_error: Box::new(ExportError::Poisoned),
            rollback_error: "disk".to_owned(),
        }
        .message(),
        "batch write failed (the exporter is unusable because an earlier rollback failed); rollback also failed (disk)"
    );
}

#[test]
fn nested_json_cells_are_compact_and_escaped() {
    let value = JsonValue::Object(vec![
        ("a\"b".to_owned(), JsonValue::Null),
        (
            "c".to_owned(),
            JsonValue::Array(vec![
                JsonValue::Bool(false),
                JsonValue::Str("line\n\u{1}".to_owned()),
            ]),
        ),
    ]);
    let record = ExportRecord::from_json_values(&[value]);
    assert_eq!(record.cells, ["{\"a\\\"b\":null,\"c\":[false,\"line\\n\\u0001\"]}"]);
}
