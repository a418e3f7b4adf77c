use cyberscope::export::ExportError;
use cyberscope::fofa::error::FofaError;
use cyberscope::fofa::models::JsonValue;
use cyberscope::fofa::validator::{ApiMode, QueryValidator, OFFICIAL_RETURN_FIELD_NAMES};
use cyberscope::jobs::manager::{JobKind, JobSnapshot, JobStartError, JobStatus};
use cyberscope::jobs::runner::{JobCounters, RunError};
use cyberscope::searches::{SearchRecord, SearchStatus};
use cyberscope::web::searches::{
    export_csv, export_filename, export_txt, field_entries, fofa_error_code, fofa_error_status,
    job_start_error_code, output_names, page_bounds, parse_result_format, plan_search,
    row_to_object, run_error_details, task_progress, CreateSearchRequest, PageQuery, ResultFormat,
};

fn request(query: &str, fields: &[&str], page_size: u64, max_results: u64) -> CreateSearchRequest {
    CreateSearchRequest {
        query: query.to_owned(),
        fields: fields.iter().map(|field| (*field).to_owned()).collect(),
        page_size,
        max_results,
        full: false,
    }
}

fn official() -> QueryValidator {
    QueryValidator::new(ApiMode::Official)
}

fn s(text: &str) -> JsonValue {
    JsonValue::Str(text.to_owned())
}

fn names(fields: &[&str]) -> Vec<String> {
    fields.iter().map(|field| (*field).to_owned()).collect()
}

#[test]
fn a_plan_trims_the_query_and_maps_location_fields() {
    let plan = plan_search(
        official(),
        &request("  ip=\"192.0.2.1\"  ", &["ip", "location.city"], 100, 100),
    )
    .unwrap();
    assert_eq!(plan.query, "ip=\"192.0.2.1\"");
    assert_eq!(plan.fields[1].output_name, "location.city");
    assert_eq!(plan.fields[1].api_name, "city");
    assert_eq!(output_names(&plan.fields), names(&["ip", "location.city"]));
    assert!(!plan.full);
}

#[test]
fn the_result_limit_is_clamped_and_capped_by_the_page_size() {
    let limit = |page_size: u64, max_results: u64| {
        plan_search(official(), &request("ip=\"192.0.2.1\"", &["ip"], page_size, max_results))
            .unwrap()
            .max_results
    };
    assert_eq!(limit(100, 0), 1);
    assert_eq!(limit(200, 50_000), 200);
    assert_eq!(limit(5_000, 50_000), 1_000);
    assert_eq!(limit(0, 100), 1);
    assert_eq!(limit(100, 30), 30);
}

#[test]
fn an_empty_query_is_refused_before_any_job_starts() {
    let refused = plan_search(official(), &request("   ", &["ip"], 100, 100));
    match refused {
        Err(FofaError::InvalidQuery { reason }) => assert_eq!(reason, "查询语句不能为空"),
        _ => panic!("an empty query must be refused"),
    }
}

#[test]
fn pages_are_clamped_to_the_stored_rows() {
    let bounds = |page: u64, per_page: u64, total: usize| page_bounds(&PageQuery { page, per_page }, total);
    assert_eq!(bounds(0, 0, 5), (0, 1, 1, 1));
    assert_eq!(bounds(3, 2, 5), (4, 5, 3, 2));
    assert_eq!(bounds(10, 2_000, 5), (5, 5, 10, 1_000));
    assert_eq!(bounds(1, 100, 0), (0, 0, 1, 100));
}

#[test]
fn short_rows_read_as_null_cells() {
    let object = row_to_object(&names(&["ip", "port"]), &[s("192.0.2.1")]);
    assert_eq!(
        object,
        vec![
            ("ip".to_owned(), s("192.0.2.1")),
            ("port".to_owned(), JsonValue::Null)
        ]
    );
}

#[test]
fn csv_exports_carry_a_bom_and_neutralised_cells() {
    let csv = export_csv(
        &names(&["ip", "title"]),
        &[
            vec![s("192.0.2.1"), s("a,b")],
            vec![JsonValue::Null, s("=1")],
        ],
    );
    assert_eq!(csv, "\u{feff}ip,title\n192.0.2.1,\"a,b\"\n,\t=1\n");
}

#[test]
fn txt_exports_number_each_record() {
    let txt = export_txt(
        &names(&["ip", "port"]),
        &[vec![s("192.0.2.1"), JsonValue::Number("80".to_owned())]],
    );
    assert_eq!(
        txt,
        "========== RECORD 000001 ==========\nip: 192.0.2.1\nport: 80\n\n"
    );
}

#[test]
fn export_formats_are_read_without_regard_to_case() {
    assert_eq!(parse_result_format("JSON"), Some(ResultFormat::Json));
    assert_eq!(parse_result_format("csv"), Some(ResultFormat::Csv));
    assert_eq!(parse_result_format("Txt"), Some(ResultFormat::Txt));
    assert_eq!(parse_result_format("xml"), None);
    assert_eq!(ResultFormat::Csv.content_type(), "text/csv; charset=utf-8");
    assert_eq!(ResultFormat::Json.extension(), "json");
    assert_eq!(
        export_filename(0x67e5_5044_10b1_426f_9247_bb68_0e5f_e0c8, ResultFormat::Txt),
        "fofa-search-67e55044-10b1-426f-9247-bb680e5fe0c8.txt"
    );
}

#[test]
fn errors_map_to_codes_and_statuses() {
    let cases = [
        (FofaError::invalid("x"), 422, "invalid_query"),
        (FofaError::AuthenticationExpired, 401, "authentication_error"),
        (FofaError::QuotaExhausted, 402, "quota_exhausted"),
        (FofaError::RateLimited { retry_after: None }, 429, "rate_limited"),
        (
            FofaError::UpstreamBusiness {
                code: "-9".to_owned(),
            },
            502,
            "upstream_business_error",
        ),
        (FofaError::Cancelled, 502, "cancelled"),
    ];
    for (error, status, code) in cases {
        assert_eq!(fofa_error_status(&error), status);
        assert_eq!(fofa_error_code(&error), code);
    }
    assert_eq!(job_start_error_code(JobStartError::UserBusy), (409, "job_busy"));
    assert_eq!(job_start_error_code(JobStartError::GloballyBusy), (409, "job_busy"));
}

#[test]
fn failed_runs_are_stored_with_a_code_and_a_message() {
    let (code, message) = run_error_details(&RunError::Fofa(FofaError::QuotaExhausted));
    assert_eq!(code, "quota_exhausted");
    assert_eq!(message, "FOFA 查询额度已用尽");
    let (code, message) = run_error_details(&RunError::Export(ExportError::Poisoned));
    assert_eq!(code, "export_error");
    assert_eq!(
        message,
        "the exporter is unusable because an earlier rollback failed"
    );
}

fn record() -> SearchRecord {
    SearchRecord {
        id: 7,
        query: "ip=\"192.0.2.1\"".to_owned(),
        fields: names(&["ip"]),
        format: "csv".to_owned(),
        max_results: 10,
        full: false,
        status: SearchStatus::Queued,
        matched_size: None,
        written_rows: 1,
        upstream_attempts: 2,
        retries: 3,
        possible_duplicate_charge: false,
        error_code: None,
        error_message: None,
        created_at: "2024-01-01T00:00:00+00:00".to_owned(),
        started_at: None,
        completed_at: None,
        updated_at: "2024-01-01T00:00:00+00:00".to_owned(),
    }
}

#[test]
fn live_job_counters_win_over_the_stored_record() {
    let stored = task_progress(&record(), None);
    assert_eq!(stored.status, SearchStatus::Queued);
    assert_eq!(
        (stored.written_rows, stored.upstream_attempts, stored.retries),
        (1, 2, 3)
    );

    let snapshot = JobSnapshot {
        id: 7,
        user_id: 0,
        kind: JobKind::Search,
        status: JobStatus::Cancelling,
        started_at: 0,
        counters: JobCounters {
            committed_batches: 1,
            upstream_attempts: 4,
            written_rows: 9,
            failed_queries: 0,
            retries: 1,
            possible_duplicate_charge: true,
        },
    };
    let live = task_progress(&record(), Some(&snapshot));
    assert_eq!(live.status, SearchStatus::Cancelling);
    assert_eq!((live.written_rows, live.upstream_attempts, live.retries), (9, 4, 1));
    assert!(live.possible_duplicate_charge);
}

#[test]
fn field_labels_replace_underscores() {
    let entries = field_entries(ApiMode::Official);
    assert_eq!(entries.len(), OFFICIAL_RETURN_FIELD_NAMES.len());
    assert_eq!(entries[0], ("ip".to_owned(), "ip".to_owned()));
    assert_eq!(
        entries[4],
        ("country_name".to_owned(), "country name".to_owned())
    );
}
