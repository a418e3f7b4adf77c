//! The decisions of a search job: a single query, or a batch of queries
//! paged through the cursor API under a result limit and a hard cap on
//! upstream requests. The caller performs the requests and file writes and
//! reports each outcome; [`BatchRun`] decides what happens next.
use vstd::prelude::*;

use crate::batch::{item_views, BatchDocument, BatchItem, ItemView};
use crate::export::{ExportError, ExportFormat, ExportOptions};
use crate::fofa::error::{FofaError, FofaErrorView};
use crate::fofa::models::{
    duplicate_fields, field_views, RetryStats, ReturnField, ReturnFieldView, SearchQuery,
    SearchResponse,
};
use crate::fofa::validator::{request_size_spec, validation_outcome, ApiMode, QueryValidator};
use crate::fofa::models::JsonValue;

verus! {

/// Minimum spacing of upstream requests in a batch, in milliseconds.
pub const MIN_UPSTREAM_REQUEST_INTERVAL: u64 = 1000;

/// How a job is run: which fields, in which format, and how many results
/// each query may write.
pub struct RunSettings {
    pub fields: Vec<ReturnField>,
    pub format: ExportFormat,
    pub max_results: u64,
    pub full: bool,
}

/// How a batch ended.
#[derive(Clone, Copy, Debug, PartialEq, Eq, Structural)]
pub enum BatchCompletion {
    Completed,
    Cancelled,
    SafetyLimit,
    AuthenticationStopped,
    QuotaStopped,
    RateLimitStopped,
    UpstreamStopped,
    FileWriteStopped,
}

/// A batch line that did not complete, and why.
#[derive(Clone, Copy, Debug, PartialEq, Eq)]
pub struct BatchFailure {
    pub line_number: usize,
    pub category: &'static str,
}

#[derive(Debug)]
pub enum RunError {
    Fofa(FofaError),
    Export(ExportError),
}

/// Progress counters of a job.
#[derive(Clone, Copy, Debug, PartialEq, Eq, Structural)]
pub struct JobCounters {
    pub committed_batches: u64,
    pub upstream_attempts: u64,
    pub written_rows: u64,
    pub failed_queries: u64,
    pub retries: u64,
    pub possible_duplicate_charge: bool,
}

pub open spec fn sat(a: int) -> u64 {
    if a > u64::MAX {
        u64::MAX
    } else {
        a as u64
    }
}

/// The counters after a page's retry statistics are added: the extra
/// attempts and the retries, and the duplicate-charge mark.
pub open spec fn with_retry_stats(c: JobCounters, r: RetryStats) -> JobCounters {
    JobCounters {
        upstream_attempts: sat(
            c.upstream_attempts + if r.attempts > 0 {
                r.attempts - 1
            } else {
                0
            },
        ),
        retries: sat(c.retries + r.retries),
        possible_duplicate_charge: c.possible_duplicate_charge || r.possible_duplicate_charge,
        ..c
    }
}

pub open spec fn zero_counters() -> JobCounters {
    JobCounters {
        committed_batches: 0,
        upstream_attempts: 0,
        written_rows: 0,
        failed_queries: 0,
        retries: 0,
        possible_duplicate_charge: false,
    }
}

impl JobCounters {
    pub fn new() -> (c: JobCounters)
        ensures
            c == zero_counters(),
    {
        JobCounters {
            committed_batches: 0,
            upstream_attempts: 0,
            written_rows: 0,
            failed_queries: 0,
            retries: 0,
            possible_duplicate_charge: false,
        }
    }

    /// Adds the retry statistics of one page.
    pub fn record_retry_stats(&mut self, retry: RetryStats)
        ensures
            *final(self) == with_retry_stats(*old(self), retry),
    {
        let extra: u32 = if retry.attempts > 0 {
            retry.attempts - 1
        } else {
            0
        };
        self.upstream_attempts = self.upstream_attempts.saturating_add(extra as u64);
        self.retries = self.retries.saturating_add(retry.retries as u64);
        self.possible_duplicate_charge = self.possible_duplicate_charge
            || retry.possible_duplicate_charge;
    }

    /// Counts one upstream request.
    pub fn count_attempt(&mut self)
        ensures
            *final(self) == (JobCounters {
                upstream_attempts: sat(old(self).upstream_attempts + 1),
                ..*old(self)
            }),
    {
        self.upstream_attempts = self.upstream_attempts.saturating_add(1);
    }

    /// Counts one committed page of `rows` rows.
    pub fn count_committed(&mut self, rows: u64)
        ensures
            *final(self) == (JobCounters {
                committed_batches: sat(old(self).committed_batches + 1),
                written_rows: sat(old(self).written_rows + rows),
                ..*old(self)
            }),
    {
        self.committed_batches = self.committed_batches.saturating_add(1);
        self.written_rows = self.written_rows.saturating_add(rows);
    }

    /// Counts one failed query.
    pub fn count_failure(&mut self)
        ensures
            *final(self) == (JobCounters {
                failed_queries: sat(old(self).failed_queries + 1),
                ..*old(self)
            }),
    {
        self.failed_queries = self.failed_queries.saturating_add(1);
    }
}

/// The error marks a request that may have consumed quota twice.
pub open spec fn charges_twice(e: FofaErrorView) -> bool {
    e matches FofaErrorView::UpstreamUnavailable { possible_duplicate_charge: true, .. }
}

/// The label a failed batch line is reported under.
pub open spec fn category_of(e: FofaErrorView) -> Seq<char> {
    match e {
        FofaErrorView::InvalidQuery { .. } => "查询无效"@,
        FofaErrorView::UnsupportedField { .. } => "字段不支持"@,
        FofaErrorView::AuthenticationRejected => "认证失败"@,
        FofaErrorView::AuthenticationExpired => "认证失败"@,
        FofaErrorView::QuotaExhausted => "额度已用尽"@,
        FofaErrorView::RateLimited { .. } => "请求限流"@,
        FofaErrorView::UpstreamUnavailable { .. } => "上游不可用"@,
        FofaErrorView::UpstreamBusiness { .. } => "上游业务错误"@,
        FofaErrorView::UpstreamProtocol { .. } => "上游协议错误"@,
        FofaErrorView::Cancelled => "任务已取消"@,
    }
}

/// The errors that stop a whole batch: the ones no later query can escape.
pub open spec fn terminal_of(e: FofaErrorView) -> Option<BatchCompletion> {
    match e {
        FofaErrorView::AuthenticationRejected => Some(BatchCompletion::AuthenticationStopped),
        FofaErrorView::AuthenticationExpired => Some(BatchCompletion::AuthenticationStopped),
        FofaErrorView::QuotaExhausted => Some(BatchCompletion::QuotaStopped),
        FofaErrorView::RateLimited { .. } => Some(BatchCompletion::RateLimitStopped),
        FofaErrorView::UpstreamUnavailable { .. } => Some(BatchCompletion::UpstreamStopped),
        FofaErrorView::Cancelled => Some(BatchCompletion::Cancelled),
        _ => None,
    }
}

/// A batch stops at an error that every later line would meet as well, and
/// goes on past one that belongs to the line alone. A rejected or expired
/// key stops it as an authentication stop, an exhausted quota as a quota
/// stop, rate limiting as a rate-limit stop, an unavailable upstream as an
/// upstream stop, and cancellation as a cancellation; an invalid query, an
/// unsupported field, an upstream business error or a protocol error of one
/// line never stops it.
pub proof fn lemma_systemic_errors_stop_the_batch(e: FofaErrorView)
    ensures
        (e is AuthenticationRejected || e is AuthenticationExpired) <==> terminal_of(e) == Some(
            BatchCompletion::AuthenticationStopped,
        ),
        e is QuotaExhausted <==> terminal_of(e) == Some(BatchCompletion::QuotaStopped),
        e is RateLimited <==> terminal_of(e) == Some(BatchCompletion::RateLimitStopped),
        e is UpstreamUnavailable <==> terminal_of(e) == Some(BatchCompletion::UpstreamStopped),
        e is Cancelled <==> terminal_of(e) == Some(BatchCompletion::Cancelled),
        (e is InvalidQuery || e is UnsupportedField || e is UpstreamBusiness
            || e is UpstreamProtocol) <==> terminal_of(e) is None,
        terminal_of(e) != Some(BatchCompletion::Completed),
        terminal_of(e) != Some(BatchCompletion::SafetyLimit),
        terminal_of(e) != Some(BatchCompletion::FileWriteStopped),
{
}

pub fn error_category(error: &FofaError) -> (c: &'static str)
    ensures
        c@ == category_of(error@),
{
    match error {
        FofaError::InvalidQuery { .. } => "查询无效",
        FofaError::UnsupportedField { .. } => "字段不支持",
        FofaError::AuthenticationRejected => "认证失败",
        FofaError::AuthenticationExpired => "认证失败",
        FofaError::QuotaExhausted => "额度已用尽",
        FofaError::RateLimited { .. } => "请求限流",
        FofaError::UpstreamUnavailable { .. } => "上游不可用",
        FofaError::UpstreamBusiness { .. } => "上游业务错误",
        FofaError::UpstreamProtocol { .. } => "上游协议错误",
        FofaError::Cancelled => "任务已取消",
    }
}

/// Whether an error stops the whole batch, and how.
pub fn terminal_completion(error: &FofaError) -> (c: Option<BatchCompletion>)
    ensures
        c == terminal_of(error@),
{
    match error {
        FofaError::AuthenticationRejected | FofaError::AuthenticationExpired => Some(
            BatchCompletion::AuthenticationStopped,
        ),
        FofaError::QuotaExhausted => Some(BatchCompletion::QuotaStopped),
        FofaError::RateLimited { .. } => Some(BatchCompletion::RateLimitStopped),
        FofaError::UpstreamUnavailable { .. } => Some(BatchCompletion::UpstreamStopped),
        FofaError::Cancelled => Some(BatchCompletion::Cancelled),
        FofaError::InvalidQuery { .. } | FofaError::UnsupportedField { .. }
        | FofaError::UpstreamBusiness { .. } | FofaError::UpstreamProtocol { .. } => None,
    }
}

/// A job must be allowed at least one result.
pub fn validate_result_limit(max_results: u64) -> (r: Result<(), FofaError>)
    ensures
        max_results == 0 ==> (r matches Err(e) && e@ == (FofaErrorView::InvalidQuery {
            reason: "查询结果上限必须大于 0"@,
        })),
        max_results > 0 ==> r is Ok,
{
    if max_results == 0 {
        return Err(FofaError::invalid("查询结果上限必须大于 0"));
    }
    Ok(())
}

/// The output columns of a job: the output names of its fields, then the
/// local source column of a batch, if any.
pub open spec fn export_columns(fields: Seq<ReturnFieldView>, local_field: Option<Seq<char>>) -> Seq<
    Seq<char>,
> {
    let names = fields.map_values(|f: ReturnFieldView| f.output_name);
    match local_field {
        Some(l) => names.push(l),
        None => names,
    }
}

/// The columns and options of a job's export: CSV always with a
/// byte-order mark.
pub fn export_schema(settings: &RunSettings, local_field: Option<&str>) -> (r: (
    Vec<String>,
    ExportOptions,
))
    ensures
        crate::export::csv::views_of(r.0@) == export_columns(
            field_views(settings.fields@),
            match local_field {
                Some(l) => Some(l@),
                None => None,
            },
        ),
        r.1 == match settings.format {
            ExportFormat::Csv => (ExportOptions {
                format: ExportFormat::Csv,
                csv_bom: true,
                max_part_bytes: crate::export::DEFAULT_MAX_PART_BYTES,
                max_parts: crate::export::DEFAULT_MAX_PARTS,
            }),
            ExportFormat::Txt => (ExportOptions {
                format: ExportFormat::Txt,
                csv_bom: false,
                max_part_bytes: crate::export::DEFAULT_MAX_PART_BYTES,
                max_parts: crate::export::DEFAULT_MAX_PARTS,
            }),
        },
{
    let ghost fv = field_views(settings.fields@);
    let mut columns: Vec<String> = Vec::new();
    let mut i: usize = 0;
    while i < settings.fields.len()
        invariant
            i <= settings.fields@.len(),
            fv == field_views(settings.fields@),
            columns@.len() == i,
            forall|k: int| 0 <= k < i ==> #[trigger] columns@[k]@ == fv[k].output_name,
        decreases settings.fields@.len() - i,
    {
        columns.push(settings.fields[i].output_name.clone());
        i += 1;
    }
    match local_field {
        Some(l) => columns.push(l.to_owned()),
        None => {},
    }
    assert(crate::export::csv::views_of(columns@) =~= export_columns(
        fv,
        match local_field {
            Some(l) => Some(l@),
            None => None,
        },
    ));
    let options = match settings.format {
        ExportFormat::Csv => ExportOptions::csv(true),
        ExportFormat::Txt => ExportOptions::txt(),
    };
    (columns, options)
}

/// Prepares the single request of a one-query job: the result limit must be
/// positive, and the query and fields must validate; the request asks for
/// at most `max_results` rows.
pub fn prepare_single(validator: QueryValidator, query: &str, settings: &RunSettings) -> (r: Result<
    SearchQuery,
    FofaError,
>)
    ensures
        settings.max_results == 0 ==> (r matches Err(e) && e@ == (FofaErrorView::InvalidQuery {
            reason: "查询结果上限必须大于 0"@,
        })),
        settings.max_results > 0 ==> match validation_outcome(
            validator.mode_spec(),
            query@,
            field_views(settings.fields@),
        ) {
            Err(e) => r matches Err(x) && x@ == e,
            Ok((max, _)) => r matches Ok(s) && s.query@ == query@ && field_views(s.fields@)
                == field_views(settings.fields@) && s.size == request_size_spec(
                max,
                Some(settings.max_results),
            ) && s.full == Some(settings.full),
        },
{
    match validate_result_limit(settings.max_results) {
        Ok(()) => {},
        Err(e) => return Err(e),
    }
    let validated = match validator.validate(query, duplicate_fields(settings.fields.as_slice())) {
        Ok(v) => v,
        Err(e) => return Err(e),
    };
    Ok(validated.to_search_query(Some(settings.max_results)).with_full(settings.full))
}

/// Checks the page of a one-query job before it is written: it may not hold
/// more rows than asked for, and the job may not have been cancelled.
pub fn check_single_response(rows: usize, max_results: u64, cancelled: bool) -> (r: Result<
    (),
    FofaError,
>)
    ensures
        rows > max_results ==> (r matches Err(e) && e@ == (FofaErrorView::UpstreamProtocol {
            reason: "上游返回条数超过本次查询上限"@,
        })),
        rows <= max_results && cancelled ==> (r matches Err(e) && e@ == FofaErrorView::Cancelled),
        rows <= max_results && !cancelled ==> r is Ok,
{
    if rows as u64 > max_results {
        return Err(FofaError::protocol("上游返回条数超过本次查询上限"));
    }
    if cancelled {
        return Err(FofaError::Cancelled);
    }
    Ok(())
}

/// Where a batch run stands.
pub enum Phase {
    /// Before the item at `index`, or after the last one.
    Between,
    /// Paging through the item's results.
    Paging,
    /// A request was handed out and waits for the request gate.
    Requesting,
    /// The request is in flight.
    Searching,
    /// A page of `rows` rows is being written; `next` is its cursor.
    Writing { rows: u64, next: Option<String> },
    /// The run is over.
    Done,
}

pub enum PhaseView {
    Between,
    Paging,
    Requesting,
    Searching,
    Writing { rows: u64, next: Option<Seq<char>> },
    Done,
}

/// What the caller does next.
pub enum BatchAction {
    /// Ask for the next decision.
    Continue,
    /// Wait for the request gate, then send this cursor request.
    Search { query: SearchQuery, cursor: Option<String> },
    /// Append these rows, with the line's source as the local column.
    Write { rows: Vec<Vec<JsonValue>>, local_cell: String },
    /// The batch is over.
    Finish(BatchCompletion),
}

/// The state of a batch run.
pub struct RunView {
    pub items: Seq<ItemView>,
    pub fields: Seq<ReturnFieldView>,
    pub max_results: u64,
    pub full: bool,
    pub max_batches: u64,
    pub mode: ApiMode,
    pub index: int,
    pub phase: PhaseView,
    pub query_max: u32,
    pub cursor: Option<Seq<char>>,
    pub written: u64,
    pub failures: Seq<(usize, Seq<char>)>,
    pub counters: JobCounters,
}

pub open spec fn failure_views(f: Seq<BatchFailure>) -> Seq<(usize, Seq<char>)> {
    f.map_values(|x: BatchFailure| (x.line_number, x.category@))
}

/// A batch of queries run one after another.
pub struct BatchRun<'a> {
    items: &'a [BatchItem],
    fields: Vec<ReturnField>,
    max_results: u64,
    full: bool,
    max_batches: u64,
    validator: QueryValidator,
    index: usize,
    phase: Phase,
    query_max: u32,
    cursor: Option<String>,
    written: u64,
    failures: Vec<BatchFailure>,
    counters: JobCounters,
}

pub open spec fn phase_view(p: Phase) -> PhaseView {
    match p {
        Phase::Between => PhaseView::Between,
        Phase::Paging => PhaseView::Paging,
        Phase::Requesting => PhaseView::Requesting,
        Phase::Searching => PhaseView::Searching,
        Phase::Writing { rows, next } => PhaseView::Writing {
            rows,
            next: crate::urls::opt_view(next),
        },
        Phase::Done => PhaseView::Done,
    }
}

impl<'a> View for BatchRun<'a> {
    type V = RunView;

    closed spec fn view(&self) -> RunView {
        RunView {
            items: item_views(self.items@),
            fields: field_views(self.fields@),
            max_results: self.max_results,
            full: self.full,
            max_batches: self.max_batches,
            mode: self.validator.mode_spec(),
            index: self.index as int,
            phase: phase_view(self.phase),
            query_max: self.query_max,
            cursor: crate::urls::opt_view(self.cursor),
            written: self.written,
            failures: failure_views(self.failures@),
            counters: self.counters,
        }
    }
}

pub open spec fn run_wf(v: RunView) -> bool {
    &&& 0 <= v.index <= v.items.len()
    &&& !(v.phase is Between || v.phase is Done) ==> v.index < v.items.len()
    &&& v.max_results > 0
    &&& v.written <= v.max_results
    &&& v.phase is Requesting ==> v.counters.upstream_attempts < v.max_batches
    &&& v.phase matches PhaseView::Writing { rows, .. } ==> v.written + rows <= v.max_results
}

/// The run moved on to the next item.
pub open spec fn next_item(v: RunView) -> RunView {
    RunView { index: v.index + 1, phase: PhaseView::Between, ..v }
}

/// The current item is recorded as failed under `category`.
pub open spec fn with_failure(v: RunView, category: Seq<char>) -> RunView {
    RunView {
        failures: v.failures.push((v.items[v.index].line_number as usize, category)),
        counters: JobCounters { failed_queries: sat(v.counters.failed_queries + 1), ..v.counters },
        ..v
    }
}

pub open spec fn finished(v: RunView) -> RunView {
    RunView { phase: PhaseView::Done, ..v }
}

impl<'a> BatchRun<'a> {
    pub open spec fn wf(&self) -> bool {
        run_wf(self@)
    }

    /// Starts a batch over `document`, unless the result limit is zero.
    pub fn new(
        document: &'a BatchDocument,
        settings: &RunSettings,
        max_batches: u64,
        validator: QueryValidator,
    ) -> (r: Result<BatchRun<'a>, FofaError>)
        ensures
            settings.max_results == 0 ==> (r matches Err(e) && e@ == (FofaErrorView::InvalidQuery {
                reason: "查询结果上限必须大于 0"@,
            })),
            settings.max_results > 0 ==> (r matches Ok(run) && run.wf() && run@.items == item_views(
                document.items@,
            ) && run@.fields == field_views(settings.fields@) && run@.max_results
                == settings.max_results && run@.full == settings.full && run@.max_batches
                == max_batches && run@.mode == validator.mode_spec() && run@.index == 0
                && run@.phase is Between && run@.cursor is None && run@.written == 0
                && run@.failures.len() == 0 && run@.counters == zero_counters()),
    {
        match validate_result_limit(settings.max_results) {
            Ok(()) => {},
            Err(e) => return Err(e),
        }
        let failures: Vec<BatchFailure> = Vec::new();
        let run = BatchRun {
            items: document.items.as_slice(),
            fields: duplicate_fields(settings.fields.as_slice()),
            max_results: settings.max_results,
            full: settings.full,
            max_batches,
            validator,
            index: 0,
            phase: Phase::Between,
            query_max: 0,
            cursor: None,
            written: 0,
            failures,
            counters: JobCounters::new(),
        };
        assert(run@.failures =~= Seq::<(usize, Seq<char>)>::empty());
        Ok(run)
    }

    /// The lines that did not complete, in order.
    pub fn failures(&self) -> (f: &[BatchFailure])
        ensures
            failure_views(f@) == self@.failures,
    {
        self.failures.as_slice()
    }

    /// The job counters so far.
    pub fn counters(&self) -> (c: JobCounters)
        ensures
            c == self@.counters,
    {
        self.counters
    }

    fn push_failure(&mut self, category: &'static str)
        requires
            old(self).index < old(self).items@.len(),
        ensures
            final(self)@ == with_failure(old(self)@, category@),
            final(self).index == old(self).index,
            final(self).items == old(self).items,
    {
        let line_number = self.items[self.index].line_number;
        self.failures.push(BatchFailure { line_number, category });
        self.counters.count_failure();
        assert(self@.failures =~= old(self)@.failures.push(
            (old(self)@.items[old(self)@.index].line_number as usize, category@),
        ));
    }

    /// Decides the next step between requests: start or validate the next
    /// item, move past a finished item, or hand out the next page request.
    /// The hard request cap and cancellation are checked before each request.
    pub fn next(&mut self, cancelled: bool) -> (action: BatchAction)
        requires
            old(self).wf(),
            old(self)@.phase is Between || old(self)@.phase is Paging,
        ensures
            final(self).wf(),
            ({
                let v = old(self)@;
                &&& v.phase is Between ==> if v.index >= v.items.len() {
                    final(self)@ == finished(v) && action == BatchAction::Finish(
                        BatchCompletion::Completed,
                    )
                } else if cancelled {
                    final(self)@ == finished(v) && action == BatchAction::Finish(
                        BatchCompletion::Cancelled,
                    )
                } else {
                    match validation_outcome(v.mode, v.items[v.index].query, v.fields) {
                        Err(e) => final(self)@ == next_item(with_failure(v, category_of(e)))
                            && action is Continue,
                        Ok((max, _)) => final(self)@ == (RunView {
                            phase: PhaseView::Paging,
                            query_max: max,
                            cursor: None,
                            written: 0,
                            ..v
                        }) && action is Continue,
                    }
                }
                &&& v.phase is Paging ==> if v.written >= v.max_results {
                    final(self)@ == next_item(v) && action is Continue
                } else if v.counters.upstream_attempts >= v.max_batches {
                    final(self)@ == finished(v) && action == BatchAction::Finish(
                        BatchCompletion::SafetyLimit,
                    )
                } else if cancelled {
                    final(self)@ == finished(v) && action == BatchAction::Finish(
                        BatchCompletion::Cancelled,
                    )
                } else {
                    &&& final(self)@ == (RunView { phase: PhaseView::Requesting, ..v })
                    &&& action matches BatchAction::Search { query, cursor } && query.query@
                        == v.items[v.index].query && field_views(query.fields@) == v.fields
                        && query.size == request_size_spec(
                        v.query_max,
                        Some((v.max_results - v.written) as u64),
                    ) && query.full == Some(v.full) && crate::urls::opt_view(cursor) == v.cursor
                }
            }),
    {
        assert(self@.items.len() == self.items@.len());
        match self.phase {
            Phase::Between => {
                if self.index >= self.items.len() {
                    self.phase = Phase::Done;
                    return BatchAction::Finish(BatchCompletion::Completed);
                }
                if cancelled {
                    self.phase = Phase::Done;
                    return BatchAction::Finish(BatchCompletion::Cancelled);
                }
                let item = &self.items[self.index];
                let fields = duplicate_fields(self.fields.as_slice());
                match self.validator.validate(item.query.as_str(), fields) {
                    Err(e) => {
                        let category = error_category(&e);
                        self.push_failure(category);
                        assert(self.index < self.items@.len());
                        assert(self.items@.len() == self.items.len());
                        self.index = self.index + 1;
                        self.phase = Phase::Between;
                        BatchAction::Continue
                    },
                    Ok(validated) => {
                        self.query_max = validated.max_request_size();
                        self.cursor = None;
                        self.written = 0;
                        self.phase = Phase::Paging;
                        BatchAction::Continue
                    },
                }
            },
            _ => {
                let remaining = self.max_results - self.written;
                if remaining == 0 {
                    assert(self.index < self.items@.len());
                    assert(self.items@.len() == self.items.len());
                    self.index = self.index + 1;
                    self.phase = Phase::Between;
                    return BatchAction::Continue;
                }
                if self.counters.upstream_attempts >= self.max_batches {
                    self.phase = Phase::Done;
                    return BatchAction::Finish(BatchCompletion::SafetyLimit);
                }
                if cancelled {
                    self.phase = Phase::Done;
                    return BatchAction::Finish(BatchCompletion::Cancelled);
                }
                let size: u32 = if remaining < self.query_max as u64 {
                    remaining as u32
                } else {
                    self.query_max
                };
                let query = SearchQuery::new(
                    self.items[self.index].query.clone(),
                    duplicate_fields(self.fields.as_slice()),
                    size,
                ).with_full(self.full);
                let cursor = match &self.cursor {
                    Some(c) => Some(c.clone()),
                    None => None,
                };
                self.phase = Phase::Requesting;
                BatchAction::Search { query, cursor }
            },
        }
    }

    /// The request gate was cancelled: the batch ends as cancelled.
    pub fn gate_cancelled(&mut self) -> (c: BatchCompletion)
        requires
            old(self).wf(),
            old(self)@.phase is Requesting,
        ensures
            final(self).wf(),
            final(self)@ == finished(old(self)@),
            c == BatchCompletion::Cancelled,
    {
        self.phase = Phase::Done;
        BatchCompletion::Cancelled
    }

    /// The request is on its way: it counts toward the request cap.
    pub fn request_started(&mut self)
        requires
            old(self).wf(),
            old(self)@.phase is Requesting,
        ensures
            final(self).wf(),
            final(self)@ == (RunView {
                phase: PhaseView::Searching,
                counters: JobCounters {
                    upstream_attempts: (old(self)@.counters.upstream_attempts + 1) as u64,
                    ..old(self)@.counters
                },
                ..old(self)@
            }),
    {
        self.counters.count_attempt();
        self.phase = Phase::Searching;
    }

    /// Decides what follows a page request. A cancelled request ends the
    /// batch; another failure is recorded against the line and stops the
    /// batch only when it is systemic; a page with more rows than the line
    /// may still write is a protocol failure of the line; otherwise the page
    /// is handed out for writing.
    pub fn on_search(&mut self, result: Result<SearchResponse, FofaError>) -> (action: BatchAction)
        requires
            old(self).wf(),
            old(self)@.phase is Searching,
        ensures
            final(self).wf(),
            ({
                let v = old(self)@;
                let remaining = v.max_results - v.written;
                match result {
                    Err(e) => if e@ is Cancelled {
                        final(self)@ == finished(v) && action == BatchAction::Finish(
                            BatchCompletion::Cancelled,
                        )
                    } else {
                        let v1 = with_failure(
                            RunView {
                                counters: JobCounters {
                                    possible_duplicate_charge: v.counters.possible_duplicate_charge
                                        || charges_twice(e@),
                                    ..v.counters
                                },
                                ..v
                            },
                            category_of(e@),
                        );
                        match terminal_of(e@) {
                            Some(c) => final(self)@ == finished(v1) && action
                                == BatchAction::Finish(c),
                            None => final(self)@ == next_item(v1) && action is Continue,
                        }
                    },
                    Ok(resp) => {
                        let v1 = RunView { counters: with_retry_stats(v.counters, resp.retry), ..v };
                        if resp.rows@.len() > remaining {
                            final(self)@ == next_item(with_failure(v1, "上游协议错误"@))
                                && action is Continue
                        } else {
                            &&& final(self)@ == (RunView {
                                phase: PhaseView::Writing {
                                    rows: resp.rows@.len() as u64,
                                    next: crate::urls::opt_view(resp.next),
                                },
                                ..v1
                            })
                            &&& action matches BatchAction::Write { rows, local_cell } && rows@
                                == resp.rows@ && local_cell@ == v.items[v.index].source
                        }
                    },
                }
            }),
    {
        assert(self@.items.len() == self.items@.len());
        let remaining = self.max_results - self.written;
        match result {
            Err(e) => {
                let cancelled = match &e {
                    FofaError::Cancelled => true,
                    _ => false,
                };
                if cancelled {
                    self.phase = Phase::Done;
                    return BatchAction::Finish(BatchCompletion::Cancelled);
                }
                if e.possible_duplicate_charge() {
                    self.counters.possible_duplicate_charge = true;
                }
                let completion = terminal_completion(&e);
                let category = error_category(&e);
                self.push_failure(category);
                match completion {
                    Some(c) => {
                        self.phase = Phase::Done;
                        BatchAction::Finish(c)
                    },
                    None => {
                        assert(self.index < self.items@.len());
                        assert(self.items@.len() == self.items.len());
                        self.index = self.index + 1;
                        self.phase = Phase::Between;
                        BatchAction::Continue
                    },
                }
            },
            Ok(resp) => {
                self.counters.record_retry_stats(resp.retry);
                if resp.rows.len() as u64 > remaining {
                    self.push_failure("上游协议错误");
                    assert(self.index < self.items@.len());
                    assert(self.items@.len() == self.items.len());
                    self.index = self.index + 1;
                    self.phase = Phase::Between;
                    return BatchAction::Continue;
                }
                let n = resp.rows.len() as u64;
                self.phase = Phase::Writing { rows: n, next: resp.next };
                let local_cell = self.items[self.index].source.clone();
                BatchAction::Write { rows: resp.rows, local_cell }
            },
        }
    }

    /// Decides what follows the write of a page. A failed write ends the
    /// batch; otherwise the page counts, and the line goes on with the
    /// page's cursor unless the page was empty, the line's limit is reached
    /// or there is no cursor.
    pub fn on_written(&mut self, ok: bool) -> (action: BatchAction)
        requires
            old(self).wf(),
            old(self)@.phase is Writing,
        ensures
            final(self).wf(),
            ({
                let v = old(self)@;
                let rows = v.phase->Writing_rows;
                let next = v.phase->Writing_next;
                if !ok {
                    final(self)@ == finished(with_failure(v, "文件写入失败"@)) && action
                        == BatchAction::Finish(BatchCompletion::FileWriteStopped)
                } else {
                    let v1 = RunView {
                        written: (v.written + rows) as u64,
                        counters: JobCounters {
                            committed_batches: sat(v.counters.committed_batches + 1),
                            written_rows: sat(v.counters.written_rows + rows),
                            ..v.counters
                        },
                        ..v
                    };
                    &&& action is Continue
                    &&& if rows == 0 || v.written + rows >= v.max_results || next is None {
                        final(self)@ == next_item(v1)
                    } else {
                        final(self)@ == (RunView { phase: PhaseView::Paging, cursor: next, ..v1 })
                    }
                }
            }),
    {
        assert(self@.items.len() == self.items@.len());
        let ghost v = self@;
        let (rows, next) = match &self.phase {
            Phase::Writing { rows, next } => (*rows, match next {
                Some(c) => Some(c.clone()),
                None => None,
            }),
            _ => (0, None),
        };
        if !ok {
            self.push_failure("文件写入失败");
            self.phase = Phase::Done;
            return BatchAction::Finish(BatchCompletion::FileWriteStopped);
        }
        self.written = self.written + rows;
        self.counters.count_committed(rows);
        if rows == 0 || self.written >= self.max_results {
            assert(self.index < self.items@.len());
            assert(self.items@.len() == self.items.len());
            self.index = self.index + 1;
            self.phase = Phase::Between;
            return BatchAction::Continue;
        }
        match next {
            Some(c) => {
                self.cursor = Some(c);
                self.phase = Phase::Paging;
            },
            None => {
                assert(self.index < self.items@.len());
                assert(self.items@.len() == self.items.len());
                self.index = self.index + 1;
                self.phase = Phase::Between;
            },
        }
        BatchAction::Continue
    }
}

} // verus!
