use cyberscope::batch::{BatchDocument, BatchItem, BatchSourceKind};
use cyberscope::export::ExportFormat;
use cyberscope::fofa::error::FofaError;
use cyberscope::fofa::models::{JsonValue, RetryStats, ReturnField, SearchResponse};
use cyberscope::fofa::validator::{ApiMode, QueryValidator};
use cyberscope::jobs::runner::{
    terminal_completion, BatchAction, BatchCompletion, BatchRun, RunSettings,
};

#[test]
fn only_systemic_fofa_errors_stop_a_batch() {
    assert_eq!(
        terminal_completion(&FofaError::QuotaExhausted),
        Some(BatchCompletion::QuotaStopped)
    );
    assert_eq!(
        terminal_completion(&FofaError::InvalidQuery {
            reason: "bad".to_owned()
        }),
        None
    );
    assert_eq!(
        terminal_completion(&FofaError::UpstreamProtocol {
            reason: "cursor".to_owned()
        }),
        None
    );
}

fn settings(max_results: u64) -> RunSettings {
    RunSettings {
        fields: vec![ReturnField::api("ip")],
        format: ExportFormat::Csv,
        max_results,
        full: false,
    }
}

fn item(line_number: usize, query: &str) -> BatchItem {
    BatchItem {
        line_number,
        source: query.to_owned(),
        query: query.to_owned(),
    }
}

fn document(items: Vec<BatchItem>) -> BatchDocument {
    let n = items.len();
    BatchDocument {
        source_kind: BatchSourceKind::Query,
        items,
        effective_lines: n,
        ignored_lines: 0,
        deduplicated_lines: 0,
    }
}

fn page(rows: usize, next: Option<&str>) -> SearchResponse {
    SearchResponse {
        query: None,
        mode: None,
        matched_size: None,
        page: None,
        rows: (0..rows)
            .map(|i| vec![JsonValue::Str(format!("192.0.2.{i}"))])
            .collect(),
        next: next.map(str::to_owned),
        tip: None,
        retry: RetryStats {
            attempts: 1,
            retries: 0,
            possible_duplicate_charge: false,
        },
    }
}

/// Drives a batch run against scripted pages. Returns the completion, the
/// page sizes requested, the rows written and the run's counters.
fn drive(
    doc: &BatchDocument,
    settings: &RunSettings,
    max_batches: u64,
    mut pages: Vec<Result<SearchResponse, FofaError>>,
) -> (BatchCompletion, Vec<u32>, usize, u64, usize) {
    let mut run = BatchRun::new(doc, settings, max_batches, QueryValidator::new(ApiMode::Official))
        .unwrap();
    let mut sizes = Vec::new();
    let mut written = 0;
    pages.reverse();
    loop {
        match run.next(false) {
            BatchAction::Continue => continue,
            BatchAction::Finish(c) => {
                let counters = run.counters();
                return (c, sizes, written, counters.upstream_attempts, run.failures().len());
            }
            BatchAction::Search { query, .. } => {
                sizes.push(query.size);
                run.request_started();
                let result = pages.pop().expect("a scripted page");
                match run.on_search(result) {
                    BatchAction::Write { rows, .. } => {
                        written += rows.len();
                        match run.on_written(true) {
                            BatchAction::Finish(c) => {
                                let counters = run.counters();
                                return (c, sizes, written, counters.upstream_attempts, run.failures().len());
                            }
                            _ => {}
                        }
                    }
                    BatchAction::Finish(c) => {
                        let counters = run.counters();
                        return (c, sizes, written, counters.upstream_attempts, run.failures().len());
                    }
                    _ => {}
                }
            }
            BatchAction::Write { .. } => panic!("no write outside a search"),
        }
    }
}

#[test]
fn batch_stops_at_the_limit_even_when_the_upstream_returns_a_cursor() {
    let doc = document(vec![item(1, r#"ip="192.0.2.1""#)]);
    let (completion, sizes, written, attempts, _) = drive(
        &doc,
        &settings(2),
        10,
        vec![Ok(page(2, Some("must-not-be-used")))],
    );
    assert_eq!(completion, BatchCompletion::Completed);
    assert_eq!(sizes, vec![2]);
    assert_eq!(written, 2);
    assert_eq!(attempts, 1);
}

#[test]
fn batch_reduces_the_next_request_to_the_remaining_result_count() {
    let doc = document(vec![item(1, r#"ip="192.0.2.1""#)]);
    let (completion, sizes, written, attempts, _) = drive(
        &doc,
        &settings(3),
        10,
        vec![Ok(page(2, Some("cursor-1"))), Ok(page(1, Some("must-not-be-used")))],
    );
    assert_eq!(completion, BatchCompletion::Completed);
    assert_eq!(sizes, vec![3, 1]);
    assert_eq!(written, 3);
    assert_eq!(attempts, 2);
}

#[test]
fn failed_logical_requests_count_toward_the_hard_batch_limit() {
    let doc = document(vec![item(1, r#"ip="192.0.2.1""#), item(2, r#"ip="192.0.2.2""#)]);
    let (completion, _, _, attempts, failures) = drive(
        &doc,
        &settings(100),
        1,
        vec![Err(FofaError::UpstreamProtocol {
            reason: "上游返回 HTTP 400".to_owned(),
        })],
    );
    assert_eq!(completion, BatchCompletion::SafetyLimit);
    assert_eq!(failures, 1);
    assert_eq!(attempts, 1);
}

#[test]
fn a_systemic_error_stops_the_batch_and_an_invalid_line_does_not() {
    let doc = document(vec![item(1, ""), item(2, r#"ip="192.0.2.2""#)]);
    let (completion, _, _, attempts, failures) =
        drive(&doc, &settings(100), 10, vec![Err(FofaError::QuotaExhausted)]);
    assert_eq!(completion, BatchCompletion::QuotaStopped);
    assert_eq!(failures, 2);
    assert_eq!(attempts, 1);
}

#[test]
fn a_cancelled_run_finishes_as_cancelled() {
    let doc = document(vec![item(1, r#"ip="192.0.2.1""#)]);
    let mut run =
        BatchRun::new(&doc, &settings(10), 10, QueryValidator::new(ApiMode::Official)).unwrap();
    assert!(matches!(
        run.next(true),
        BatchAction::Finish(BatchCompletion::Cancelled)
    ));
}

#[test]
fn a_zero_result_limit_is_refused() {
    let doc = document(vec![]);
    assert!(matches!(
        BatchRun::new(&doc, &settings(0), 10, QueryValidator::new(ApiMode::Official)),
        Err(FofaError::InvalidQuery { .. })
    ));
}
