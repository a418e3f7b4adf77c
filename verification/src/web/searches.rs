//! Search endpoints of the web console: how a search request is planned,
//! how task progress and errors are reported, how stored results are paged
//! and how they are exported.
use vstd::prelude::*;

use crate::export::csv::{csv_record, encode_csv_record, views_of};
use crate::export::{cell_text, cells_text, json_record_cells, json_value_to_cell};
use crate::fofa::error::{error_message, FofaError, FofaErrorView};
use crate::fofa::models::{field_views, location_alias, JsonValue, ReturnField, ReturnFieldView};
use crate::fofa::validator::{catalog, validation_outcome, ApiMode, QueryValidator};
use crate::jobs::manager::{JobSnapshot, JobStartError, JobStatus};
use crate::jobs::runner::RunError;
use crate::searches::{SearchRecord, SearchStatus, MAX_RESULTS};
use crate::text::{chars_of, decimal, push_char, push_decimal, push_str, trim_string, trimmed};

verus! {

pub const DEFAULT_PAGE_SIZE: u64 = 100;

pub const MAX_PAGE_SIZE: u64 = 1000;

/// A request to run one search.
pub struct CreateSearchRequest {
    pub query: String,
    pub fields: Vec<String>,
    pub page_size: u64,
    pub max_results: u64,
    pub full: bool,
}

/// A page of stored results.
pub struct PageQuery {
    pub page: u64,
    pub per_page: u64,
}

/// An export of stored results.
pub struct ExportQuery {
    pub format: String,
}

pub fn default_page() -> (n: u64)
    ensures
        n == 1,
{
    1
}

pub fn default_page_size() -> (n: u64)
    ensures
        n == DEFAULT_PAGE_SIZE,
{
    DEFAULT_PAGE_SIZE
}

pub fn default_max_results() -> (n: u64)
    ensures
        n == DEFAULT_PAGE_SIZE,
{
    DEFAULT_PAGE_SIZE
}

pub fn default_export_format() -> (s: String)
    ensures
        s@ == "csv"@,
{
    "csv".to_owned()
}

pub open spec fn clamp(v: u64, lo: u64, hi: u64) -> u64 {
    if v < lo {
        lo
    } else if v > hi {
        hi
    } else {
        v
    }
}

fn clamp_exec(v: u64, lo: u64, hi: u64) -> (r: u64)
    requires
        lo <= hi,
    ensures
        r == clamp(v, lo, hi),
{
    if v < lo {
        lo
    } else if v > hi {
        hi
    } else {
        v
    }
}

/// The fields a request asks for: the mode's whole catalog when it names
/// none, otherwise the named fields with their location aliases applied.
pub open spec fn requested_fields(mode: ApiMode, names: Seq<Seq<char>>) -> Seq<ReturnFieldView> {
    if names.len() == 0 {
        catalog(mode).map_values(|n: Seq<char>| ReturnFieldView { output_name: n, api_name: n })
    } else {
        names.map_values(|n: Seq<char>| ReturnFieldView { output_name: n, api_name: location_alias(n) })
    }
}

/// The result limit of a search: both the requested limit and the page
/// size, each clamped to its range.
pub open spec fn search_limit(max_results: u64, page_size: u64) -> u64 {
    let m = clamp(max_results, 1, MAX_RESULTS);
    let p = clamp(page_size, 1, MAX_PAGE_SIZE);
    if m <= p {
        m
    } else {
        p
    }
}

/// A search ready to be recorded and run.
pub struct SearchPlan {
    pub query: String,
    pub fields: Vec<ReturnField>,
    pub max_results: u64,
    pub full: bool,
}

/// Plans a search request: the query is trimmed, the fields are chosen and
/// validated with it, and the result limit is clamped.
pub fn plan_search(validator: QueryValidator, request: &CreateSearchRequest) -> (r: Result<
    SearchPlan,
    FofaError,
>)
    ensures
        ({
            let fields = requested_fields(validator.mode_spec(), views_of(request.fields@));
            let query = trimmed(request.query@);
            match validation_outcome(validator.mode_spec(), query, fields) {
                Err(e) => r matches Err(x) && x@ == e,
                Ok(_) => r matches Ok(p) && p.query@ == query && field_views(p.fields@) == fields
                    && p.max_results == search_limit(request.max_results, request.page_size)
                    && p.full == request.full,
            }
        }),
{
    let ghost names = views_of(request.fields@);
    let fields: Vec<ReturnField> = if request.fields.len() == 0 {
        let d = crate::fofa::validator::default_return_fields(validator.mode());
        assert(field_views(d@) =~= requested_fields(validator.mode_spec(), names));
        d
    } else {
        let mut f: Vec<ReturnField> = Vec::new();
        let mut i: usize = 0;
        while i < request.fields.len()
            invariant
                i <= request.fields@.len(),
                names == views_of(request.fields@),
                f@.len() == i,
                forall|k: int|
                    0 <= k < i ==> (#[trigger] f@[k])@ == (ReturnFieldView {
                        output_name: names[k],
                        api_name: location_alias(names[k]),
                    }),
            decreases request.fields@.len() - i,
        {
            f.push(ReturnField::from_name(request.fields[i].as_str()));
            i += 1;
        }
        assert(field_views(f@) =~= requested_fields(validator.mode_spec(), names));
        f
    };
    let query = trim_string(request.query.as_str());
    let validated = match validator.validate(query.as_str(), fields) {
        Ok(v) => v,
        Err(e) => return Err(e),
    };
    let max_results = clamp_exec(request.max_results, 1, MAX_RESULTS);
    let page_size = clamp_exec(request.page_size, 1, MAX_PAGE_SIZE);
    let max_results = if max_results <= page_size {
        max_results
    } else {
        page_size
    };
    Ok(
        SearchPlan {
            query,
            fields: crate::fofa::models::duplicate_fields(validated.fields()),
            max_results,
            full: request.full,
        },
    )
}

/// The output names of fields.
pub fn output_names(fields: &[ReturnField]) -> (r: Vec<String>)
    ensures
        views_of(r@) == field_views(fields@).map_values(|f: ReturnFieldView| f.output_name),
{
    let mut r: Vec<String> = Vec::new();
    let mut i: usize = 0;
    while i < fields.len()
        invariant
            i <= fields@.len(),
            r@.len() == i,
            forall|k: int| 0 <= k < i ==> #[trigger] r@[k]@ == fields@[k].output_name@,
        decreases fields@.len() - i,
    {
        r.push(fields[i].output_name.clone());
        i += 1;
    }
    assert(views_of(r@) =~= field_views(fields@).map_values(|f: ReturnFieldView| f.output_name));
    r
}

/// The label shown for a field name: underscores become spaces.
pub open spec fn field_label(name: Seq<char>) -> Seq<char> {
    name.map_values(|c: char| if c == '_' {
        ' '
    } else {
        c
    })
}

/// The fields a mode supports, each with its label.
pub fn field_entries(mode: ApiMode) -> (r: Vec<(String, String)>)
    ensures
        r@.len() == catalog(mode).len(),
        forall|i: int|
            0 <= i < r@.len() ==> (#[trigger] r@[i]).0@ == catalog(mode)[i] && r@[i].1@
                == field_label(catalog(mode)[i]),
{
    let names = crate::fofa::validator::supported_return_field_names(mode);
    let mut r: Vec<(String, String)> = Vec::new();
    let mut i: usize = 0;
    while i < names.len()
        invariant
            i <= names@.len(),
            crate::fofa::validator::name_views(names@) == catalog(mode),
            r@.len() == i,
            forall|k: int|
                0 <= k < i ==> (#[trigger] r@[k]).0@ == catalog(mode)[k] && r@[k].1@ == field_label(
                    catalog(mode)[k],
                ),
        decreases names@.len() - i,
    {
        let v = chars_of(names[i]);
        let mut label = String::new();
        let mut k: usize = 0;
        while k < v.len()
            invariant
                k <= v@.len(),
                label@ == field_label(v@.take(k as int)),
            decreases v@.len() - k,
        {
            push_char(&mut label, if v[k] == '_' {
                ' '
            } else {
                v[k]
            });
            assert(label@ =~= field_label(v@.take(k + 1)));
            k += 1;
        }
        assert(v@.take(v@.len() as int) =~= v@);
        assert(names@[i as int]@ == catalog(mode)[i as int]);
        r.push((names[i].to_owned(), label));
        i += 1;
    }
    r
}

pub open spec fn search_status_of(s: JobStatus) -> SearchStatus {
    match s {
        JobStatus::Queued => SearchStatus::Queued,
        JobStatus::Running => SearchStatus::Running,
        JobStatus::Cancelling => SearchStatus::Cancelling,
        JobStatus::Completed => SearchStatus::Completed,
        JobStatus::Failed => SearchStatus::Failed,
        JobStatus::Cancelled => SearchStatus::Cancelled,
    }
}

pub fn job_status_to_search_status(status: JobStatus) -> (s: SearchStatus)
    ensures
        s == search_status_of(status),
{
    match status {
        JobStatus::Queued => SearchStatus::Queued,
        JobStatus::Running => SearchStatus::Running,
        JobStatus::Cancelling => SearchStatus::Cancelling,
        JobStatus::Completed => SearchStatus::Completed,
        JobStatus::Failed => SearchStatus::Failed,
        JobStatus::Cancelled => SearchStatus::Cancelled,
    }
}

/// The progress shown for a search task.
#[derive(Clone, Copy, Debug, PartialEq, Eq, Structural)]
pub struct TaskProgress {
    pub status: SearchStatus,
    pub written_rows: u64,
    pub upstream_attempts: u64,
    pub retries: u64,
    pub possible_duplicate_charge: bool,
}

/// A running job's live counters win over the stored record's.
pub fn task_progress(record: &SearchRecord, snapshot: Option<&JobSnapshot>) -> (p: TaskProgress)
    ensures
        match snapshot {
            Some(s) => p == (TaskProgress {
                status: search_status_of(s.status),
                written_rows: s.counters.written_rows,
                upstream_attempts: s.counters.upstream_attempts,
                retries: s.counters.retries,
                possible_duplicate_charge: s.counters.possible_duplicate_charge,
            }),
            None => p == (TaskProgress {
                status: record.status,
                written_rows: record.written_rows,
                upstream_attempts: record.upstream_attempts,
                retries: record.retries,
                possible_duplicate_charge: record.possible_duplicate_charge,
            }),
        },
{
    match snapshot {
        Some(s) => TaskProgress {
            status: job_status_to_search_status(s.status),
            written_rows: s.counters.written_rows,
            upstream_attempts: s.counters.upstream_attempts,
            retries: s.counters.retries,
            possible_duplicate_charge: s.counters.possible_duplicate_charge,
        },
        None => TaskProgress {
            status: record.status,
            written_rows: record.written_rows,
            upstream_attempts: record.upstream_attempts,
            retries: record.retries,
            possible_duplicate_charge: record.possible_duplicate_charge,
        },
    }
}

/// The code under which an error is reported.
pub open spec fn error_code_of(e: FofaErrorView) -> Seq<char> {
    match e {
        FofaErrorView::InvalidQuery { .. } => "invalid_query"@,
        FofaErrorView::UnsupportedField { .. } => "unsupported_field"@,
        FofaErrorView::AuthenticationRejected => "authentication_error"@,
        FofaErrorView::AuthenticationExpired => "authentication_error"@,
        FofaErrorView::QuotaExhausted => "quota_exhausted"@,
        FofaErrorView::RateLimited { .. } => "rate_limited"@,
        FofaErrorView::UpstreamUnavailable { .. } => "upstream_unavailable"@,
        FofaErrorView::UpstreamBusiness { .. } => "upstream_business_error"@,
        FofaErrorView::UpstreamProtocol { .. } => "upstream_protocol_error"@,
        FofaErrorView::Cancelled => "cancelled"@,
    }
}

pub fn fofa_error_code(error: &FofaError) -> (c: &'static str)
    ensures
        c@ == error_code_of(error@),
{
    match error {
        FofaError::InvalidQuery { .. } => "invalid_query",
        FofaError::UnsupportedField { .. } => "unsupported_field",
        FofaError::AuthenticationRejected | FofaError::AuthenticationExpired =>
            "authentication_error",
        FofaError::QuotaExhausted => "quota_exhausted",
        FofaError::RateLimited { .. } => "rate_limited",
        FofaError::UpstreamUnavailable { .. } => "upstream_unavailable",
        FofaError::UpstreamBusiness { .. } => "upstream_business_error",
        FofaError::UpstreamProtocol { .. } => "upstream_protocol_error",
        FofaError::Cancelled => "cancelled",
    }
}

/// The HTTP status under which an error is reported.
pub open spec fn error_status_of(e: FofaErrorView) -> u16 {
    match e {
        FofaErrorView::InvalidQuery { .. } => 422,
        FofaErrorView::UnsupportedField { .. } => 422,
        FofaErrorView::AuthenticationRejected => 401,
        FofaErrorView::AuthenticationExpired => 401,
        FofaErrorView::QuotaExhausted => 402,
        FofaErrorView::RateLimited { .. } => 429,
        _ => 502,
    }
}

pub fn fofa_error_status(error: &FofaError) -> (s: u16)
    ensures
        s == error_status_of(error@),
{
    match error {
        FofaError::InvalidQuery { .. } | FofaError::UnsupportedField { .. } => 422,
        FofaError::AuthenticationRejected | FofaError::AuthenticationExpired => 401,
        FofaError::QuotaExhausted => 402,
        FofaError::RateLimited { .. } => 429,
        _ => 502,
    }
}

/// Every refused job start is a conflict reported as `job_busy`.
pub fn job_start_error_code(error: JobStartError) -> (r: (u16, &'static str))
    ensures
        r.0 == 409,
        r.1@ == "job_busy"@,
{
    (409, "job_busy")
}

/// The code and message a failed search is stored with.
pub fn run_error_details(error: &RunError) -> (r: (&'static str, String))
    ensures
        match error {
            RunError::Fofa(e) => r.0@ == error_code_of(e@) && r.1@ == error_message(e@),
            RunError::Export(e) => r.0@ == "export_error"@ && r.1@
                == crate::export::export_error_message(*e),
        },
{
    match error {
        RunError::Fofa(e) => (fofa_error_code(e), e.message()),
        RunError::Export(e) => ("export_error", e.message()),
    }
}

/// The rows of one page: `[start, end)` of the stored rows, with the page
/// number and page size in effect.
pub open spec fn page_window(page: u64, per_page: u64, total: nat) -> (nat, nat, u64, u64) {
    let size = clamp(per_page, 1, MAX_PAGE_SIZE);
    let number = if page < 1 {
        1
    } else {
        page
    };
    let offset = (number - 1) * size;
    let start = if offset < total {
        offset as nat
    } else {
        total
    };
    let end = if start + size < total {
        (start + size) as nat
    } else {
        total
    };
    (start, end, number, size)
}

/// Decides which stored rows a page shows.
pub fn page_bounds(page: &PageQuery, total: usize) -> (r: (usize, usize, u64, u64))
    ensures
        ({
            let w = page_window(page.page, page.per_page, total as nat);
            r.0 == w.0 && r.1 == w.1 && r.2 == w.2 && r.3 == w.3
        }),
{
    let size = clamp_exec(page.per_page, 1, MAX_PAGE_SIZE);
    let number = if page.page < 1 {
        1
    } else {
        page.page
    };
    let pages_before = number - 1;
    let start: usize = if pages_before > (total as u64) / size {
        total
    } else {
        assert(pages_before * size <= total) by (nonlinear_arith)
            requires
                pages_before <= (total as u64) / size,
                size >= 1,
        ;
        let offset = pages_before * size;
        offset as usize
    };
    proof {
        if pages_before > (total as u64) / size {
            assert(pages_before * size >= total) by (nonlinear_arith)
                requires
                    pages_before > (total as u64) / size,
                    size >= 1,
            ;
        }
    }
    let end: usize = if (size as usize) < total - start {
        start + size as usize
    } else {
        total
    };
    (start, end, number, size)
}

/// A stored row as an object: each field with its cell, or null when the
/// row is short.
pub fn row_to_object(fields: &[String], row: &[JsonValue]) -> (r: Vec<(String, JsonValue)>)
    ensures
        r@.len() == fields@.len(),
        forall|i: int|
            0 <= i < fields@.len() ==> (#[trigger] r@[i]).0@ == fields@[i]@ && if i < row@.len() {
                r@[i].1@ == row@[i]@ && crate::export::json_text(r@[i].1)
                    == crate::export::json_text(row@[i])
            } else {
                r@[i].1 == JsonValue::Null
            },
{
    let mut r: Vec<(String, JsonValue)> = Vec::new();
    let mut i: usize = 0;
    while i < fields.len()
        invariant
            i <= fields@.len(),
            r@.len() == i,
            forall|k: int|
                0 <= k < i ==> (#[trigger] r@[k]).0@ == fields@[k]@ && if k < row@.len() {
                    r@[k].1@ == row@[k]@ && crate::export::json_text(r@[k].1)
                        == crate::export::json_text(row@[k])
                } else {
                    r@[k].1 == JsonValue::Null
                },
        decreases fields@.len() - i,
    {
        let value = if i < row.len() {
            row[i].deep_copy()
        } else {
            JsonValue::Null
        };
        r.push((fields[i].clone(), value));
        i += 1;
    }
    r
}

/// The formats stored results can be exported in.
#[derive(Clone, Copy, Debug, PartialEq, Eq, Structural)]
pub enum ResultFormat {
    Csv,
    Json,
    Txt,
}

/// The format a query names, ignoring ASCII case.
pub open spec fn result_format(name: Seq<char>) -> Option<ResultFormat> {
    let n = crate::text::ascii_lowercase(name);
    if n == "csv"@ {
        Some(ResultFormat::Csv)
    } else if n == "json"@ {
        Some(ResultFormat::Json)
    } else if n == "txt"@ {
        Some(ResultFormat::Txt)
    } else {
        None
    }
}

pub fn parse_result_format(name: &str) -> (r: Option<ResultFormat>)
    ensures
        r == result_format(name@),
{
    let v = chars_of(name);
    let lower = crate::text::ascii_lowercase_chars(v.as_slice());
    let s = crate::text::string_from_chars(lower.as_slice());
    if crate::text::str_eq(s.as_str(), "csv") {
        Some(ResultFormat::Csv)
    } else if crate::text::str_eq(s.as_str(), "json") {
        Some(ResultFormat::Json)
    } else if crate::text::str_eq(s.as_str(), "txt") {
        Some(ResultFormat::Txt)
    } else {
        None
    }
}

impl ResultFormat {
    pub fn content_type(self) -> (s: &'static str)
        ensures
            s@ == match self {
                ResultFormat::Csv => "text/csv; charset=utf-8"@,
                ResultFormat::Json => "application/json; charset=utf-8"@,
                ResultFormat::Txt => "text/plain; charset=utf-8"@,
            },
    {
        match self {
            ResultFormat::Csv => "text/csv; charset=utf-8",
            ResultFormat::Json => "application/json; charset=utf-8",
            ResultFormat::Txt => "text/plain; charset=utf-8",
        }
    }

    pub fn extension(self) -> (s: &'static str)
        ensures
            s@ == match self {
                ResultFormat::Csv => "csv"@,
                ResultFormat::Json => "json"@,
                ResultFormat::Txt => "txt"@,
            },
    {
        match self {
            ResultFormat::Csv => "csv",
            ResultFormat::Json => "json",
            ResultFormat::Txt => "txt",
        }
    }
}

/// The download name of an export.
pub fn export_filename(id: u128, format: ResultFormat) -> (s: String)
    ensures
        s@ == "fofa-search-"@ + crate::searches::uuid_spelling(id) + "."@ + match format {
            ResultFormat::Csv => "csv"@,
            ResultFormat::Json => "json"@,
            ResultFormat::Txt => "txt"@,
        },
{
    let mut s = String::new();
    push_str(&mut s, "fofa-search-");
    let id_text = crate::searches::uuid_text(id);
    push_str(&mut s, id_text.as_str());
    push_str(&mut s, ".");
    push_str(&mut s, format.extension());
    s
}

/// The CSV lines of stored rows.
pub open spec fn csv_rows(rows: Seq<Vec<JsonValue>>, k: int) -> Seq<char>
    decreases k,
{
    if k <= 0 {
        Seq::empty()
    } else {
        csv_rows(rows, k - 1) + csv_record(cells_text(rows[k - 1]@))
    }
}

/// A CSV export of stored results: byte-order mark, header, one record per
/// row.
pub open spec fn csv_export(fields: Seq<Seq<char>>, rows: Seq<Vec<JsonValue>>) -> Seq<char> {
    seq!['\u{feff}'] + csv_record(fields) + csv_rows(rows, rows.len() as int)
}

pub fn export_csv(fields: &[String], rows: &[Vec<JsonValue>]) -> (s: String)
    ensures
        s@ == csv_export(views_of(fields@), rows@),
{
    let mut s = String::new();
    push_char(&mut s, '\u{feff}');
    let header = encode_csv_record(fields);
    push_str(&mut s, header.as_str());
    let ghost start = s@;
    let mut k: usize = 0;
    while k < rows.len()
        invariant
            k <= rows@.len(),
            s@ == start + csv_rows(rows@, k as int),
        decreases rows@.len() - k,
    {
        let cells = json_record_cells(rows[k].as_slice(), None);
        let line = encode_csv_record(cells.as_slice());
        push_str(&mut s, line.as_str());
        assert(s@ =~= start + csv_rows(rows@, k + 1));
        k += 1;
    }
    assert(s@ =~= csv_export(views_of(fields@), rows@));
    s
}

/// The `field: value` lines of one stored row, for the fields the row has.
pub open spec fn txt_row_lines(fields: Seq<Seq<char>>, row: Seq<JsonValue>, k: int) -> Seq<char>
    decreases k,
{
    if k <= 0 {
        Seq::empty()
    } else {
        txt_row_lines(fields, row, k - 1) + fields[k - 1] + ": "@ + cell_text(row[k - 1]) + seq!['\n']
    }
}

/// The numbered blocks of stored rows.
pub open spec fn txt_rows(fields: Seq<Seq<char>>, rows: Seq<Vec<JsonValue>>, k: int) -> Seq<char>
    decreases k,
{
    if k <= 0 {
        Seq::empty()
    } else {
        let row = rows[k - 1]@;
        let n = if fields.len() <= row.len() {
            fields.len()
        } else {
            row.len()
        };
        txt_rows(fields, rows, k - 1) + crate::export::text::txt_banner(k as nat) + txt_row_lines(
            fields,
            row,
            n as int,
        ) + seq!['\n']
    }
}

pub fn export_txt(fields: &[String], rows: &[Vec<JsonValue>]) -> (s: String)
    ensures
        s@ == txt_rows(views_of(fields@), rows@, rows@.len() as int),
{
    let ghost fs = views_of(fields@);
    let mut s = String::new();
    let mut k: usize = 0;
    while k < rows.len()
        invariant
            k <= rows@.len(),
            fs == views_of(fields@),
            s@ == txt_rows(fs, rows@, k as int),
        decreases rows@.len() - k,
    {
        let row = &rows[k];
        let ghost before = s@;
        push_str(&mut s, "========== RECORD ");
        crate::export::text::push_zero_padded(&mut s, (k + 1) as u64);
        push_str(&mut s, " ==========\n");
        assert(s@ =~= before + crate::export::text::txt_banner((k + 1) as nat));
        let n = if fields.len() <= row.len() {
            fields.len()
        } else {
            row.len()
        };
        let ghost banner_end = s@;
        let mut j: usize = 0;
        while j < n
            invariant
                j <= n,
                n <= fields@.len(),
                n <= row@.len(),
                fs == views_of(fields@),
                s@ == banner_end + txt_row_lines(fs, row@, j as int),
            decreases n - j,
        {
            push_str(&mut s, fields[j].as_str());
            push_str(&mut s, ": ");
            let cell = json_value_to_cell(&row[j]);
            push_str(&mut s, cell.as_str());
            push_char(&mut s, '\n');
            assert(s@ =~= banner_end + txt_row_lines(fs, row@, j + 1));
            j += 1;
        }
        push_char(&mut s, '\n');
        assert(s@ =~= txt_rows(fs, rows@, k + 1));
        k += 1;
    }
    s
}

} // verus!
