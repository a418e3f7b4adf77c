//! The rules of the FOFA search client: retry back-off, classification of
//! upstream business errors, request preparation, and the decision taken
//! after each attempt of a search request. The HTTP exchange itself is
//! performed by the caller, which reports each outcome to [`SearchAttempts`].
use base64::Engine;
use vstd::prelude::*;

use crate::fofa::error::{FofaError, FofaErrorView};
use crate::fofa::models::{
    api_names, comma_join, field_views, protocol_error, RawSearchResponse, RetryStats,
    ReturnField, SearchQuery, SearchResponse,
};
use crate::text::{
    ascii_lowercase, ascii_lowercase_chars, chars_of, contains_chars, contains_seq, decimal,
    is_ascii_digit, push_char, push_decimal, push_str,
};

verus! {

/// Defensive cap for one decoded search response, enforced while chunked
/// bodies are streamed into the per-page buffer.
pub const MAX_SEARCH_RESPONSE_BYTES: u64 = 67108864;

/// Upper bound of an upstream `Retry-After` wait, in milliseconds.
pub const MAX_RETRY_AFTER_MS: u64 = 300000;

/// Retry behaviour of one logical search request. Delays are in
/// milliseconds.
#[derive(Clone, Copy, Debug)]
pub struct RetryPolicy {
    /// Retries after the initial request.
    pub max_retries: u32,
    pub base_delay: u64,
    pub max_delay: u64,
}

impl Default for RetryPolicy {
    fn default() -> (p: RetryPolicy)
        ensures
            p.max_retries == 3,
            p.base_delay == 500,
            p.max_delay == 8000,
    {
        RetryPolicy { max_retries: 3, base_delay: 500, max_delay: 8000 }
    }
}

pub open spec fn power_of_two(k: nat) -> nat
    decreases k,
{
    if k == 0 {
        1
    } else {
        2 * power_of_two((k - 1) as nat)
    }
}

pub open spec fn min_int(a: int, b: int) -> int {
    if a <= b {
        a
    } else {
        b
    }
}

/// The wait before retry `retry_index`: the upstream `Retry-After` hint
/// capped at five minutes, regardless of the back-off ceiling; otherwise
/// `base_delay * 2^min(retry_index, 31)`, capped by `max_delay`.
pub open spec fn retry_delay(p: RetryPolicy, retry_index: u32, retry_after: Option<u64>) -> u64 {
    match retry_after {
        Some(hint) => min_int(hint as int, MAX_RETRY_AFTER_MS as int) as u64,
        None => {
            let k: nat = if retry_index <= 31 {
                retry_index as nat
            } else {
                31
            };
            let raw = p.base_delay * power_of_two(k);
            min_int(min_int(raw, u64::MAX as int), p.max_delay as int) as u64
        },
    }
}

impl RetryPolicy {
    /// The wait before retry `retry_index`, in milliseconds.
    pub fn delay(&self, retry_index: u32, retry_after: Option<u64>) -> (d: u64)
        ensures
            d == retry_delay(*self, retry_index, retry_after),
    {
        match retry_after {
            Some(hint) => {
                if hint < MAX_RETRY_AFTER_MS {
                    hint
                } else {
                    MAX_RETRY_AFTER_MS
                }
            },
            None => {
                let k: u32 = if retry_index <= 31 {
                    retry_index
                } else {
                    31
                };
                let mut multiplier: u64 = 1;
                let mut j: u32 = 0;
                while j < k
                    invariant
                        j <= k <= 31,
                        multiplier == power_of_two(j as nat),
                        multiplier <= 0x8000_0000,
                    decreases k - j,
                {
                    proof {
                        assert(power_of_two((j + 1) as nat) == 2 * power_of_two(j as nat));
                        lemma_power_of_two_monotonic((j + 1) as nat, 31);
                        lemma_power_of_two_31();
                    }
                    multiplier = multiplier * 2;
                    j += 1;
                }
                let raw = self.base_delay.checked_mul(multiplier);
                let capped = match raw {
                    Some(v) => v,
                    None => u64::MAX,
                };
                if capped < self.max_delay {
                    capped
                } else {
                    self.max_delay
                }
            },
        }
    }
}

pub proof fn lemma_power_of_two_monotonic(a: nat, b: nat)
    requires
        a <= b,
    ensures
        power_of_two(a) <= power_of_two(b),
    decreases b,
{
    if a < b {
        lemma_power_of_two_monotonic(a, (b - 1) as nat);
    }
}

pub proof fn lemma_power_of_two_31()
    ensures
        power_of_two(31) == 0x8000_0000,
{
    reveal_with_fuel(power_of_two, 32);
}

/// Back-off without a `Retry-After` hint starts at the base delay, doubles
/// with each retry until the ceiling, and never passes the ceiling or
/// shrinks. A hint is honoured up to five minutes, whatever the ceiling.
pub proof fn lemma_backoff(p: RetryPolicy, i: u32, hint: u64)
    ensures
        retry_delay(p, 0, None) == min_int(p.base_delay as int, p.max_delay as int),
        retry_delay(p, i, None) <= p.max_delay,
        i < u32::MAX ==> retry_delay(p, i, None) <= retry_delay(p, (i + 1) as u32, None),
        i < 31 && retry_delay(p, i, None) < p.max_delay ==> retry_delay(p, (i + 1) as u32, None)
            == min_int(2 * retry_delay(p, i, None), p.max_delay as int),
        retry_delay(p, i, Some(hint)) == min_int(hint as int, 300000),
{
    let k: nat = if i <= 31 {
        i as nat
    } else {
        31
    };
    let k2: nat = if i + 1 <= 31 {
        (i + 1) as nat
    } else {
        31
    };
    assert(power_of_two(0) == 1);
    if i < u32::MAX {
        lemma_power_of_two_monotonic(k, k2);
        let b = p.base_delay as int;
        let x = power_of_two(k) as int;
        let y = power_of_two(k2) as int;
        assert(b * x <= b * y) by (nonlinear_arith)
            requires
                0 <= b,
                x <= y,
        ;
    }
    if i < 31 {
        let b = p.base_delay as int;
        let x = power_of_two(k) as int;
        assert(power_of_two(k2) == 2 * power_of_two(k));
        assert(b * (2 * x) == 2 * (b * x)) by (nonlinear_arith);
    }
}

/// The kind of a business error reported in a FOFA `errmsg`.
#[derive(Debug, PartialEq, Eq)]
pub enum BusinessError {
    Authentication,
    QuotaExhausted,
    RateLimited,
    InvalidQuery,
    Other(String),
}

pub enum BusinessErrorView {
    Authentication,
    QuotaExhausted,
    RateLimited,
    InvalidQuery,
    Other(Seq<char>),
}

impl View for BusinessError {
    type V = BusinessErrorView;

    open spec fn view(&self) -> BusinessErrorView {
        match self {
            BusinessError::Authentication => BusinessErrorView::Authentication,
            BusinessError::QuotaExhausted => BusinessErrorView::QuotaExhausted,
            BusinessError::RateLimited => BusinessErrorView::RateLimited,
            BusinessError::InvalidQuery => BusinessErrorView::InvalidQuery,
            BusinessError::Other(code) => BusinessErrorView::Other(code@),
        }
    }
}

/// A message that reports an exhausted query quota.
pub open spec fn quota_exhausted_message(m: Seq<char>) -> bool {
    let lower = ascii_lowercase(m);
    contains_seq(m, "额度已用尽"@) || contains_seq(m, "额度已用完"@) || contains_seq(m, "已用尽"@)
        || contains_seq(m, "已用完"@) || contains_seq(lower, "quota exhausted"@) || contains_seq(
        lower,
        "insufficient quota"@,
    )
}

/// The first index of `c` in `s` at or after `from`.
pub open spec fn index_of(s: Seq<char>, c: char, from: int) -> Option<int>
    decreases s.len() - from,
{
    if from < 0 || from >= s.len() {
        None
    } else if s[from] == c {
        Some(from)
    } else {
        index_of(s, c, from + 1)
    }
}

pub open spec fn is_code_char(c: char) -> bool {
    is_ascii_digit(c) || c == '+' || c == '-'
}

/// The numeric code in the first `[...]` of a message: one to sixteen
/// digits and signs, or `unknown`.
pub open spec fn business_code(m: Seq<char>) -> Seq<char> {
    match index_of(m, '[', 0) {
        None => "unknown"@,
        Some(a) => match index_of(m, ']', a + 1) {
            None => "unknown"@,
            Some(b) => {
                let code = m.subrange(a + 1, b);
                if 1 <= code.len() <= 16 && forall|i: int|
                    0 <= i < code.len() ==> #[trigger] is_code_char(code[i]) {
                    code
                } else {
                    "unknown"@
                }
            },
        },
    }
}

/// How a business error message is classified. Authentication markers win
/// over rate limiting, which wins over quota exhaustion, which wins over
/// query syntax.
pub open spec fn business_kind(message: Option<Seq<char>>) -> BusinessErrorView {
    match message {
        None => BusinessErrorView::Other("unknown"@),
        Some(m) => {
            let lower = ascii_lowercase(m);
            if contains_seq(m, "[-100]"@) || contains_seq(m, "[-101]"@) || contains_seq(
                m,
                "Key 不存在"@,
            ) || contains_seq(m, "Token 或 Key"@) || contains_seq(lower, "invalid key"@) {
                BusinessErrorView::Authentication
            } else if contains_seq(m, "[45012]"@) || contains_seq(lower, "rate limit"@) {
                BusinessErrorView::RateLimited
            } else if quota_exhausted_message(m) {
                BusinessErrorView::QuotaExhausted
            } else if contains_seq(m, "语法"@) || contains_seq(m, "查询字段"@) || contains_seq(
                lower,
                "syntax"@,
            ) {
                BusinessErrorView::InvalidQuery
            } else {
                BusinessErrorView::Other(business_code(m))
            }
        },
    }
}

/// The console error that a business error becomes.
pub open spec fn business_error(b: BusinessErrorView) -> FofaErrorView {
    match b {
        BusinessErrorView::Authentication => FofaErrorView::AuthenticationRejected,
        BusinessErrorView::QuotaExhausted => FofaErrorView::QuotaExhausted,
        BusinessErrorView::RateLimited => FofaErrorView::RateLimited { retry_after: None },
        BusinessErrorView::InvalidQuery => FofaErrorView::InvalidQuery {
            reason: "上游拒绝了查询语法或字段"@,
        },
        BusinessErrorView::Other(code) => FofaErrorView::UpstreamBusiness { code },
    }
}

fn has(v: &[char], pat: &str) -> (b: bool)
    ensures
        b == contains_seq(v@, pat@),
{
    let p = chars_of(pat);
    contains_chars(v, p.as_slice())
}

/// Whether a message reports an exhausted query quota.
pub fn is_quota_exhausted(message: &str) -> (b: bool)
    ensures
        b == quota_exhausted_message(message@),
{
    let m = chars_of(message);
    let lower = ascii_lowercase_chars(m.as_slice());
    has(m.as_slice(), "额度已用尽") || has(m.as_slice(), "额度已用完") || has(m.as_slice(), "已用尽")
        || has(m.as_slice(), "已用完") || has(lower.as_slice(), "quota exhausted") || has(
        lower.as_slice(),
        "insufficient quota",
    )
}

pub proof fn lemma_index_of(s: Seq<char>, c: char, from: int)
    ensures
        index_of(s, c, from) matches Some(i) ==> from <= i < s.len() && s[i] == c,
    decreases s.len() - from,
{
    if 0 <= from < s.len() && s[from] != c {
        lemma_index_of(s, c, from + 1);
    }
}

/// The first index of `c` in `s` at or after `from`.
pub fn index_of_exec(s: &[char], c: char, from: usize) -> (r: Option<usize>)
    ensures
        match r {
            Some(i) => index_of(s@, c, from as int) == Some(i as int) && from <= i < s@.len()
                && i < s.len() && s@[i as int] == c,
            None => index_of(s@, c, from as int) is None,
        },
{
    proof {
        lemma_index_of(s@, c, from as int);
    }
    let mut i = from;
    while i < s.len()
        invariant
            from <= i,
            index_of(s@, c, from as int) == index_of(s@, c, i as int),
        decreases s@.len() - i,
    {
        if s[i] == c {
            return Some(i);
        }
        i += 1;
    }
    None
}

/// The numeric code of a business error message, or `unknown`.
pub fn extract_business_code(message: &str) -> (s: String)
    ensures
        s@ == business_code(message@),
{
    let m = chars_of(message);
    let start = match index_of_exec(m.as_slice(), '[', 0) {
        Some(a) => a,
        None => return "unknown".to_owned(),
    };
    let end = match index_of_exec(m.as_slice(), ']', start + 1) {
        Some(b) => b,
        None => return "unknown".to_owned(),
    };
    let ghost code = m@.subrange(start + 1, end as int);
    let len = end - (start + 1);
    if len < 1 || len > 16 {
        return "unknown".to_owned();
    }
    let mut out = String::new();
    let mut k = start + 1;
    while k < end
        invariant
            start + 1 <= k <= end,
            end < m@.len(),
            m@ == message@,
            index_of(m@, '[', 0) == Some(start as int),
            index_of(m@, ']', start + 1) == Some(end as int),
            1 <= end - (start + 1) <= 16,
            code == m@.subrange(start + 1, end as int),
            out@ == m@.subrange(start + 1, k as int),
            forall|i: int| 0 <= i < k - (start + 1) ==> #[trigger] is_code_char(code[i]),
        decreases end - k,
    {
        let c = m[k];
        if !(('0' <= c && c <= '9') || c == '+' || c == '-') {
            assert(code[k - (start + 1)] == c);
            assert(!is_code_char(code[k - (start + 1)]));
            return "unknown".to_owned();
        }
        push_char(&mut out, c);
        assert(out@ =~= m@.subrange(start + 1, k + 1));
        k += 1;
    }
    out
}

/// Classifies a FOFA business error message.
pub fn classify_business_error(message: Option<&str>) -> (b: BusinessError)
    ensures
        b@ == business_kind(match message {
            Some(m) => Some(m@),
            None => None,
        }),
{
    let message = match message {
        Some(m) => m,
        None => return BusinessError::Other("unknown".to_owned()),
    };
    let m = chars_of(message);
    let lower = ascii_lowercase_chars(m.as_slice());
    if has(m.as_slice(), "[-100]") || has(m.as_slice(), "[-101]") || has(m.as_slice(), "Key 不存在")
        || has(m.as_slice(), "Token 或 Key") || has(lower.as_slice(), "invalid key") {
        BusinessError::Authentication
    } else if has(m.as_slice(), "[45012]") || has(lower.as_slice(), "rate limit") {
        BusinessError::RateLimited
    } else if is_quota_exhausted(message) {
        BusinessError::QuotaExhausted
    } else if has(m.as_slice(), "语法") || has(m.as_slice(), "查询字段") || has(
        lower.as_slice(),
        "syntax",
    ) {
        BusinessError::InvalidQuery
    } else {
        BusinessError::Other(extract_business_code(message))
    }
}

impl BusinessError {
    pub fn into_fofa_error(self) -> (e: FofaError)
        ensures
            e@ == business_error(self@),
    {
        match self {
            BusinessError::Authentication => FofaError::AuthenticationRejected,
            BusinessError::QuotaExhausted => FofaError::QuotaExhausted,
            BusinessError::RateLimited => FofaError::RateLimited { retry_after: None },
            BusinessError::InvalidQuery => FofaError::invalid("上游拒绝了查询语法或字段"),
            BusinessError::Other(code) => FofaError::UpstreamBusiness { code },
        }
    }
}

/// Refuses a response whose declared length passes the 64 MiB cap.
pub fn check_content_length(length: Option<u64>) -> (r: Result<(), FofaError>)
    ensures
        match length {
            Some(n) if n > MAX_SEARCH_RESPONSE_BYTES => r matches Err(e) && e@ == protocol_error(
                "上游搜索响应超过 64 MiB 安全上限"@,
            ),
            _ => r is Ok,
        },
{
    match length {
        Some(n) => if n > MAX_SEARCH_RESPONSE_BYTES {
            Err(FofaError::protocol("上游搜索响应超过 64 MiB 安全上限"))
        } else {
            Ok(())
        },
        None => Ok(()),
    }
}

/// The body length after appending a chunk, unless that overflows or
/// passes the 64 MiB cap.
pub fn check_body_growth(current: usize, chunk: usize) -> (r: Result<usize, FofaError>)
    ensures
        current + chunk > usize::MAX ==> (r matches Err(e) && e@ == protocol_error(
            "上游搜索响应大小溢出"@,
        )),
        current + chunk <= usize::MAX && current + chunk > MAX_SEARCH_RESPONSE_BYTES ==> (r matches Err(
            e,
        ) && e@ == protocol_error("上游搜索响应超过 64 MiB 安全上限"@)),
        current + chunk <= usize::MAX && current + chunk <= MAX_SEARCH_RESPONSE_BYTES ==> r == Ok::<
            usize,
            FofaError,
        >((current + chunk) as usize),
{
    let new_len = match current.checked_add(chunk) {
        Some(n) => n,
        None => return Err(FofaError::protocol("上游搜索响应大小溢出")),
    };
    if new_len as u64 > MAX_SEARCH_RESPONSE_BYTES {
        return Err(FofaError::protocol("上游搜索响应超过 64 MiB 安全上限"));
    }
    Ok(new_len)
}

/// The value of a run of decimal digits.
pub open spec fn digits_value(s: Seq<char>) -> int
    decreases s.len(),
{
    if s.len() == 0 {
        0
    } else {
        digits_value(s.drop_last()) * 10 + (s.last() as int - '0' as int)
    }
}

pub open spec fn all_digits(s: Seq<char>) -> bool {
    forall|i: int| 0 <= i < s.len() ==> #[trigger] is_ascii_digit(s[i])
}

/// `u64`'s `FromStr`: an optional `+` and one or more decimal digits whose
/// value fits.
pub open spec fn parsed_u64(s: Seq<char>) -> Option<u64> {
    let body = if s.len() > 0 && s[0] == '+' {
        s.drop_first()
    } else {
        s
    };
    if body.len() > 0 && all_digits(body) && digits_value(body) <= u64::MAX {
        Some(digits_value(body) as u64)
    } else {
        None
    }
}

pub proof fn lemma_digits_value_nonneg(s: Seq<char>)
    requires
        forall|i: int| 0 <= i < s.len() ==> #[trigger] is_ascii_digit(s[i]),
    ensures
        digits_value(s) >= 0,
    decreases s.len(),
{
    if s.len() > 0 {
        assert forall|i: int| 0 <= i < s.drop_last().len() implies #[trigger] is_ascii_digit(
            s.drop_last()[i],
        ) by {
            assert(s.drop_last()[i] == s[i]);
        }
        assert(is_ascii_digit(s[s.len() - 1]));
        lemma_digits_value_nonneg(s.drop_last());
    }
}

/// Parses an unsigned decimal number the way `str::parse::<u64>` does.
pub fn parse_u64(text: &str) -> (r: Option<u64>)
    ensures
        r == parsed_u64(text@),
{
    let v = chars_of(text);
    let start: usize = if v.len() > 0 && v[0] == '+' {
        1
    } else {
        0
    };
    let ghost body = if v@.len() > 0 && v@[0] == '+' {
        v@.drop_first()
    } else {
        v@
    };
    assert(body =~= v@.subrange(start as int, v@.len() as int));
    if start >= v.len() {
        return None;
    }
    let mut value: u64 = 0;
    let mut i = start;
    while i < v.len()
        invariant
            start <= i <= v@.len(),
            start < v@.len(),
            v@ == text@,
            body == (if text@.len() > 0 && text@[0] == '+' {
                text@.drop_first()
            } else {
                text@
            }),
            body == v@.subrange(start as int, v@.len() as int),
            forall|k: int| start <= k < i ==> #[trigger] is_ascii_digit(v@[k]),
            value == digits_value(v@.subrange(start as int, i as int)),
        decreases v@.len() - i,
    {
        let c = v[i];
        if !('0' <= c && c <= '9') {
            assert(!is_ascii_digit(body[i - start]));
            return None;
        }
        let d = (c as u32 - '0' as u32) as u64;
        assert(v@.subrange(start as int, i + 1).drop_last() =~= v@.subrange(start as int, i as int));
        proof {
            assert forall|k: int| 0 <= k < v@.subrange(start as int, i + 1).len() implies #[trigger] is_ascii_digit(
                v@.subrange(start as int, i + 1)[k],
            ) by {
                assert(v@.subrange(start as int, i + 1)[k] == v@[start + k]);
            }
            lemma_digits_value_nonneg(v@.subrange(start as int, i + 1));
        }
        if value > (u64::MAX - d) / 10 {
            proof {
                let pre = v@.subrange(start as int, i + 1);
                assert(d <= 9);
                assert(value * 10 + d > u64::MAX) by (nonlinear_arith)
                    requires
                        value > (u64::MAX - d) / 10,
                        d <= 9,
                ;
                assert(digits_value(pre) == value * 10 + d);
                if all_digits(body) {
                    lemma_digits_value_prefix_grows(body, i + 1 - start);
                    assert(body.take(i + 1 - start) =~= pre);
                }
            }
            return None;
        }
        value = value * 10 + d;
        i += 1;
    }
    assert(v@.subrange(start as int, v@.len() as int) =~= body);
    Some(value)
}

/// Appending digits never makes a digit run's value smaller.
pub proof fn lemma_digits_value_prefix_grows(s: Seq<char>, k: int)
    requires
        0 <= k <= s.len(),
        forall|i: int| 0 <= i < s.len() ==> #[trigger] is_ascii_digit(s[i]),
    ensures
        digits_value(s.take(k)) <= digits_value(s),
    decreases s.len() - k,
{
    if k < s.len() {
        lemma_digits_value_prefix_grows(s, k + 1);
        assert(s.take(k + 1).drop_last() =~= s.take(k));
        assert(s.take(k + 1).last() == s[k]);
        assert(is_ascii_digit(s[k]));
        assert forall|i: int| 0 <= i < s.take(k).len() implies #[trigger] is_ascii_digit(s.take(k)[i]) by {
            assert(s.take(k)[i] == s[i]);
        }
        lemma_digits_value_nonneg(s.take(k));
    } else {
        assert(s.take(k) =~= s);
    }
}

/// What `chrono::DateTime::parse_from_rfc2822` makes of a text, as Unix
/// milliseconds.
pub uninterp spec fn rfc2822_millis(text: Seq<char>) -> Option<i64>;

/// Parses an RFC 2822 date with `chrono::DateTime::parse_from_rfc2822` and
/// reads it with `timestamp_millis`. The contract names the result; the date
/// grammar is not restated here.
#[verifier::external_body]
fn parse_rfc2822_millis(text: &str) -> (r: Option<i64>)
    ensures
        r == rfc2822_millis(text@),
{
    chrono::DateTime::parse_from_rfc2822(text).ok().map(|date| date.timestamp_millis())
}

/// The current time from `chrono::Utc::now`, as Unix milliseconds. Nothing is
/// promised of the value: it is the clock's.
#[verifier::external_body]
fn now_millis() -> i64 {
    chrono::Utc::now().timestamp_millis()
}

/// The wait until `deadline`, when it is not in the past at `now`.
pub open spec fn wait_until(deadline: i64, now: i64) -> Option<u64> {
    if deadline >= now {
        Some((deadline - now) as u64)
    } else {
        None
    }
}

/// The wait until `deadline` seen at `now`, both in Unix milliseconds.
pub fn retry_after_until(deadline: i64, now: i64) -> (r: Option<u64>)
    ensures
        r == wait_until(deadline, now),
{
    if deadline >= now {
        let d = (deadline as i128 - now as i128) as u64;
        Some(d)
    } else {
        None
    }
}

/// Reads a `Retry-After` header value, in milliseconds: a number of seconds,
/// or an RFC 2822 date measured from the current time. A value that is
/// neither, or a date in the past, gives `None`.
pub fn parse_retry_after(value: Option<&str>) -> (r: Option<u64>)
    ensures
        match value {
            None => r is None,
            Some(v) => match parsed_u64(v@) {
                Some(seconds) => r == Some(
                    min_int(seconds * 1000, u64::MAX as int) as u64,
                ),
                None => match rfc2822_millis(v@) {
                    None => r is None,
                    Some(deadline) => exists|now: i64| r == wait_until(deadline, now),
                },
            },
        },
{
    let v = match value {
        Some(v) => v,
        None => return None,
    };
    match parse_u64(v) {
        Some(seconds) => {
            let ms = match seconds.checked_mul(1000) {
                Some(ms) => ms,
                None => u64::MAX,
            };
            return Some(ms);
        },
        None => {},
    }
    match parse_rfc2822_millis(v) {
        Some(deadline) => {
            let now = now_millis();
            retry_after_until(deadline, now)
        },
        None => None,
    }
}

/// The outcome of checking a search's query, fields and page size for the
/// validator's mode.
pub open spec fn search_shape(
    mode: crate::fofa::validator::ApiMode,
    search_query: Seq<char>,
    fields: Seq<crate::fofa::models::ReturnFieldView>,
    size: u32,
) -> Result<(), FofaErrorView> {
    match crate::fofa::validator::validation_outcome(mode, search_query, fields) {
        Err(e) => Err(e),
        Ok((max, _)) => if size == 0 || size > max {
            Err(
                FofaErrorView::InvalidQuery {
                    reason: "当前返回字段的单次请求 size 必须在 1..="@ + decimal(max as nat)
                        + " 范围内"@,
                },
            )
        } else {
            Ok(())
        },
    }
}

/// Checks a search before it is sent: the query and fields must validate
/// for the mode, and the page size must be within the fields' limit.
pub fn validate_search_shape(validator: &crate::fofa::validator::QueryValidator, search: &SearchQuery) -> (r:
    Result<(), FofaError>)
    ensures
        match r {
            Ok(()) => search_shape(
                validator.mode_spec(),
                search.query@,
                field_views(search.fields@),
                search.size,
            ) == Ok::<(), FofaErrorView>(()),
            Err(e) => search_shape(
                validator.mode_spec(),
                search.query@,
                field_views(search.fields@),
                search.size,
            ) == Err::<(), FofaErrorView>(e@),
        },
{
    let fields = crate::fofa::models::duplicate_fields(search.fields.as_slice());
    let validated = match validator.validate(search.query.as_str(), fields) {
        Ok(v) => v,
        Err(e) => return Err(e),
    };
    let max = validated.max_request_size();
    if search.size == 0 || search.size > max {
        let mut reason = String::new();
        push_str(&mut reason, "当前返回字段的单次请求 size 必须在 1..=");
        push_decimal(&mut reason, max as u64);
        push_str(&mut reason, " 范围内");
        return Err(FofaError::InvalidQuery { reason });
    }
    Ok(())
}

/// The character of a 6-bit value in the standard base64 alphabet:
/// `A`-`Z`, `a`-`z`, `0`-`9`, `+`, `/`.
pub open spec fn base64_char(v: int) -> char {
    (if v < 26 {
        65 + v
    } else if v < 52 {
        71 + v
    } else if v < 62 {
        v - 4
    } else if v == 62 {
        43
    } else {
        47
    }) as u32 as char
}

/// Standard padded base64 (RFC 4648), as
/// `base64::engine::general_purpose::STANDARD.encode` writes it: each group
/// of three bytes becomes four characters; a last group of one or two
/// bytes is padded with `=`.
pub open spec fn base64_standard(bytes: Seq<u8>) -> Seq<char>
    decreases bytes.len(),
{
    if bytes.len() == 0 {
        Seq::empty()
    } else if bytes.len() == 1 {
        let a = bytes[0] as int;
        seq![base64_char(a / 4), base64_char((a % 4) * 16), '=', '=']
    } else if bytes.len() == 2 {
        let a = bytes[0] as int;
        let b = bytes[1] as int;
        seq![base64_char(a / 4), base64_char((a % 4) * 16 + b / 16), base64_char((b % 16) * 4), '=']
    } else {
        let a = bytes[0] as int;
        let b = bytes[1] as int;
        let c = bytes[2] as int;
        seq![
            base64_char(a / 4),
            base64_char((a % 4) * 16 + b / 16),
            base64_char((b % 16) * 4 + c / 64),
            base64_char(c % 64),
        ] + base64_standard(bytes.subrange(3, bytes.len() as int))
    }
}

/// Encodes bytes with the standard padded base64 alphabet through the
/// `base64` crate. `encode` panics when the encoded length overflows
/// `usize`; the bound rules that out.
#[verifier::external_body]
fn encode_base64(bytes: &[u8]) -> (s: String)
    requires
        bytes@.len() <= 0x1000_0000,
    ensures
        s@ == base64_standard(bytes@),
{
    base64::engine::general_purpose::STANDARD.encode(bytes)
}

/// The query parameters of a search request, apart from the API key.
pub struct SearchParams {
    pub qbase64: String,
    pub fields: String,
    pub size: u32,
    pub page: Option<u64>,
    pub next: Option<String>,
    pub full: Option<bool>,
}

fn search_params(search: &SearchQuery, page: Option<u64>, next: Option<&str>) -> (p: SearchParams)
    requires
        crate::text::utf8_len(search.query@) <= 16384,
    ensures
        p.qbase64@ == base64_standard(vstd::utf8::encode_utf8(search.query@)),
        p.fields@ == comma_join(api_names(field_views(search.fields@))),
        p.size == search.size,
        p.page == page,
        p.next.is_some() == next.is_some(),
        next matches Some(c) ==> p.next->Some_0@ == c@,
        p.full == search.full,
{
    let bytes = search.query.as_str().as_bytes();
    proof {
        crate::text::lemma_utf8_len_is_encoding_len(search.query@);
    }
    let qbase64 = encode_base64(bytes);
    let next = match next {
        Some(c) => Some(c.to_owned()),
        None => None,
    };
    SearchParams { qbase64, fields: search.api_fields(), size: search.size, page, next, full: search.full }
}

/// Checks an ordinary page request and prepares its parameters.
pub fn prepare_search_all(
    validator: &crate::fofa::validator::QueryValidator,
    search: &SearchQuery,
    page: Option<u64>,
) -> (r: Result<SearchParams, FofaError>)
    ensures
        match search_shape(
            validator.mode_spec(),
            search.query@,
            field_views(search.fields@),
            search.size,
        ) {
            Err(e) => r matches Err(x) && x@ == e,
            Ok(()) => r matches Ok(p) && p.qbase64@ == base64_standard(
                vstd::utf8::encode_utf8(search.query@),
            ) && p.fields@ == comma_join(api_names(field_views(search.fields@))) && p.size
                == search.size && p.page == page && p.next is None && p.full == search.full,
        },
{
    match validate_search_shape(validator, search) {
        Ok(()) => {},
        Err(e) => return Err(e),
    }
    Ok(search_params(search, page, None))
}

/// Checks a cursor page request and prepares its parameters. The first call
/// passes no cursor; later calls pass the last cursor returned, which must
/// not be empty.
pub fn prepare_search_next(
    validator: &crate::fofa::validator::QueryValidator,
    search: &SearchQuery,
    cursor: Option<&str>,
) -> (r: Result<SearchParams, FofaError>)
    ensures
        match search_shape(
            validator.mode_spec(),
            search.query@,
            field_views(search.fields@),
            search.size,
        ) {
            Err(e) => r matches Err(x) && x@ == e,
            Ok(()) => if cursor matches Some(c) && c@.len() == 0 {
                r matches Err(x) && x@ == (FofaErrorView::InvalidQuery {
                    reason: "连续分页游标不能为空"@,
                })
            } else {
                r matches Ok(p) && p.qbase64@ == base64_standard(
                    vstd::utf8::encode_utf8(search.query@),
                ) && p.fields@ == comma_join(api_names(field_views(search.fields@))) && p.size
                    == search.size && p.page is None && p.full == search.full && p.next.is_some()
                    == cursor.is_some() && (cursor matches Some(c) ==> p.next->Some_0@ == c@)
            },
        },
{
    match validate_search_shape(validator, search) {
        Ok(()) => {},
        Err(e) => return Err(e),
    }
    match cursor {
        Some(c) => if c.is_empty() {
            return Err(FofaError::invalid("连续分页游标不能为空"));
        },
        None => {},
    }
    Ok(search_params(search, None, cursor))
}

/// An absolute `http` or `https` URL with a host.
pub open spec fn is_http_base_url(text: Seq<char>) -> bool {
    match crate::urls::parsed_url(text) {
        Some(p) => (p.scheme == "http"@ || p.scheme == "https"@) && p.host is Some,
        None => false,
    }
}

fn http_base_url(base_url: &str) -> (b: bool)
    ensures
        b == is_http_base_url(base_url@),
{
    match crate::urls::parse_url(base_url) {
        Some(p) => (crate::text::str_eq(p.scheme.as_str(), "http") || crate::text::str_eq(
            p.scheme.as_str(),
            "https",
        )) && p.host.is_some(),
        None => false,
    }
}

/// Checks the search client's base URL.
pub fn check_search_base_url(base_url: &str) -> (r: Result<(), FofaError>)
    ensures
        is_http_base_url(base_url@) ==> r is Ok,
        !is_http_base_url(base_url@) ==> (r matches Err(e) && e@ == (FofaErrorView::InvalidQuery {
            reason: "FOFA API 基础地址必须是 HTTP(S) URL"@,
        })),
{
    if http_base_url(base_url) {
        Ok(())
    } else {
        Err(FofaError::invalid("FOFA API 基础地址必须是 HTTP(S) URL"))
    }
}

/// Checks the relay quota client's base URL.
pub fn check_relay_base_url(base_url: &str) -> (r: Result<(), FofaError>)
    ensures
        is_http_base_url(base_url@) ==> r is Ok,
        !is_http_base_url(base_url@) ==> (r matches Err(e) && e@ == (FofaErrorView::InvalidQuery {
            reason: "中转 API 基础地址必须是 HTTP(S) URL"@,
        })),
{
    if http_base_url(base_url) {
        Ok(())
    } else {
        Err(FofaError::invalid("中转 API 基础地址必须是 HTTP(S) URL"))
    }
}

/// The state of one logical search request across its attempts.
#[derive(Clone, Copy, Debug, PartialEq, Eq, Structural)]
pub struct SearchAttempts {
    /// Attempts made after the initial request.
    pub retries: u32,
    /// A 502 or 503 was seen: the upstream may have charged quota for an
    /// attempt whose result was lost.
    pub possible_duplicate_charge: bool,
}

/// What the caller observed after acting on the previous decision.
pub enum SearchEvent {
    /// The cancellation token fired while the request was sent or awaited.
    Cancelled,
    /// The request could not be sent or answered.
    TransportFailed { builder: bool, connect: bool, status: Option<u16> },
    /// The upstream answered with a status line and headers.
    Responded { status: u16, retry_after: Option<u64>, content_length: Option<u64> },
    /// Reading the body failed (see `check_body_growth`).
    BodyFailed(FofaError),
    /// The body was read; `None` when it is not a valid search JSON document.
    BodyRead(Option<RawSearchResponse>),
}

/// What the caller does next.
pub enum SearchAction {
    /// Wait `delay` milliseconds, then send the request again.
    Retry { delay: u64 },
    /// Read the response body.
    ReadBody,
    /// The logical request is over.
    Finish(Result<SearchResponse, FofaError>),
}

/// A decision, in terms of views.
pub enum StepView {
    Retry { delay: u64 },
    ReadBody,
    Fail(FofaErrorView),
}

pub open spec fn is_success_status(status: u16) -> bool {
    200 <= status <= 299
}

/// The decision taken on a transport failure: an encoding failure is a
/// protocol error; a connection failure is retried while retries remain;
/// anything else may have reached the upstream.
pub open spec fn transport_step(
    a: SearchAttempts,
    p: RetryPolicy,
    builder: bool,
    connect: bool,
    status: Option<u16>,
) -> StepView {
    if builder {
        StepView::Fail(protocol_error("无法编码 FOFA 请求参数"@))
    } else if connect && a.retries < p.max_retries {
        StepView::Retry { delay: retry_delay(p, a.retries, None) }
    } else {
        StepView::Fail(
            FofaErrorView::UpstreamUnavailable { status, possible_duplicate_charge: !connect },
        )
    }
}

/// The decision taken on a status line. 429, 502 and 503 are retried while
/// retries remain (honouring `Retry-After`); 401 and 403 reject the key; 402
/// is an exhausted quota; other failures are upstream or protocol errors; a
/// success is read unless it declares a body over the cap.
pub open spec fn http_status_step(
    a: SearchAttempts,
    p: RetryPolicy,
    status: u16,
    retry_after: Option<u64>,
    content_length: Option<u64>,
) -> StepView {
    let can_retry = a.retries < p.max_retries;
    if status == 429 {
        if can_retry {
            StepView::Retry { delay: retry_delay(p, a.retries, retry_after) }
        } else {
            StepView::Fail(FofaErrorView::RateLimited { retry_after })
        }
    } else if status == 502 || status == 503 {
        if can_retry {
            StepView::Retry { delay: retry_delay(p, a.retries, retry_after) }
        } else {
            StepView::Fail(
                FofaErrorView::UpstreamUnavailable {
                    status: Some(status),
                    possible_duplicate_charge: true,
                },
            )
        }
    } else if status == 401 || status == 403 {
        StepView::Fail(FofaErrorView::AuthenticationRejected)
    } else if status == 402 {
        StepView::Fail(FofaErrorView::QuotaExhausted)
    } else if !is_success_status(status) {
        if (500 <= status <= 599) || status == 408 {
            StepView::Fail(
                FofaErrorView::UpstreamUnavailable {
                    status: Some(status),
                    possible_duplicate_charge: true,
                },
            )
        } else {
            StepView::Fail(protocol_error("上游返回 HTTP "@ + decimal(status as nat)))
        }
    } else if content_length matches Some(n) && n > MAX_SEARCH_RESPONSE_BYTES {
        StepView::Fail(protocol_error("上游搜索响应超过 64 MiB 安全上限"@))
    } else {
        StepView::ReadBody
    }
}

/// The decision taken on a business error: rate limiting is retried while
/// retries remain; anything else ends the request.
pub open spec fn business_step(a: SearchAttempts, p: RetryPolicy, errmsg: Option<Seq<char>>) -> StepView {
    let b = business_kind(errmsg);
    if b is RateLimited && a.retries < p.max_retries {
        StepView::Retry { delay: retry_delay(p, a.retries, None) }
    } else {
        StepView::Fail(business_error(b))
    }
}

/// How a status line is answered. A success whose declared length is
/// within the cap is read; 401 and 403 reject the key; 402 is an exhausted
/// quota; 429, 502 and 503 are retried while retries remain; other server
/// errors and 408 are an unavailable upstream that may have charged quota;
/// any other failure status is a protocol error. Nothing but 429, 502 and
/// 503 is ever retried.
pub proof fn lemma_status_answers(
    a: SearchAttempts,
    p: RetryPolicy,
    status: u16,
    retry_after: Option<u64>,
    content_length: Option<u64>,
)
    ensures
        ({
            let s = http_status_step(a, p, status, retry_after, content_length);
            &&& (200 <= status <= 299 && (content_length is None || content_length->0
                <= 67108864)) ==> s is ReadBody
            &&& (status == 401 || status == 403) ==> s == StepView::Fail(
                FofaErrorView::AuthenticationRejected,
            )
            &&& status == 402 ==> s == StepView::Fail(FofaErrorView::QuotaExhausted)
            &&& (status == 429 || status == 502 || status == 503) && a.retries < p.max_retries
                ==> s == (StepView::Retry { delay: retry_delay(p, a.retries, retry_after) })
            &&& s is Retry ==> (status == 429 || status == 502 || status == 503) && a.retries
                < p.max_retries
            &&& ((500 <= status <= 599 && status != 502 && status != 503) || status == 408)
                ==> s == StepView::Fail(
                FofaErrorView::UpstreamUnavailable {
                    status: Some(status),
                    possible_duplicate_charge: true,
                },
            )
        }),
{
}

/// A rate limit reported in a response body is handled as an HTTP 429
/// without `Retry-After`: while retries remain the request is retried after
/// the back-off delay and the retry is counted, and once they are used up
/// the request fails as rate limited. Any other business error ends the
/// request at once, without a retry.
pub proof fn lemma_business_rate_limit_is_retried(
    a: SearchAttempts,
    p: RetryPolicy,
    errmsg: Option<Seq<char>>,
    content_length: Option<u64>,
)
    ensures
        business_kind(errmsg) is RateLimited ==> business_step(a, p, errmsg) == http_status_step(
            a,
            p,
            429,
            None,
            content_length,
        ),
        business_kind(errmsg) is RateLimited && a.retries < p.max_retries ==> business_step(
            a,
            p,
            errmsg,
        ) == (StepView::Retry { delay: retry_delay(p, a.retries, None) }) && after_step(
            a,
            business_step(a, p, errmsg),
        ).retries == a.retries + 1,
        business_kind(errmsg) is RateLimited && a.retries >= p.max_retries ==> business_step(
            a,
            p,
            errmsg,
        ) == StepView::Fail(FofaErrorView::RateLimited { retry_after: None }),
        !(business_kind(errmsg) is RateLimited) ==> business_step(a, p, errmsg) == StepView::Fail(
            business_error(business_kind(errmsg)),
        ),
{
}

/// The state after a decision: a retry counts.
pub open spec fn after_step(a: SearchAttempts, step: StepView) -> SearchAttempts {
    if step is Retry {
        SearchAttempts { retries: (a.retries + 1) as u32, possible_duplicate_charge: a.possible_duplicate_charge }
    } else {
        a
    }
}

/// A logical request is retried at most `max_retries` times: whatever the
/// transport, the status line or the body says, a decision taken while the
/// retries are within the policy leaves them within it.
pub proof fn lemma_retries_bounded(
    a: SearchAttempts,
    p: RetryPolicy,
    builder: bool,
    connect: bool,
    status: Option<u16>,
    code: u16,
    retry_after: Option<u64>,
    content_length: Option<u64>,
    errmsg: Option<Seq<char>>,
)
    requires
        a.retries <= p.max_retries,
    ensures
        after_step(a, transport_step(a, p, builder, connect, status)).retries <= p.max_retries,
        after_step(a, http_status_step(a, p, code, retry_after, content_length)).retries
            <= p.max_retries,
        after_step(a, business_step(a, p, errmsg)).retries <= p.max_retries,
{
}

/// The action carries out the decision.
pub open spec fn acts(action: SearchAction, step: StepView) -> bool {
    match step {
        StepView::Retry { delay } => action matches SearchAction::Retry { delay: d } && d == delay,
        StepView::ReadBody => action is ReadBody,
        StepView::Fail(e) => action matches SearchAction::Finish(Err(x)) && x@ == e,
    }
}

/// The retry statistics reported with a successful page.
pub open spec fn final_stats(a: SearchAttempts) -> RetryStats {
    RetryStats {
        attempts: if a.retries == u32::MAX {
            u32::MAX
        } else {
            (a.retries + 1) as u32
        },
        retries: a.retries,
        possible_duplicate_charge: a.possible_duplicate_charge,
    }
}

/// The page's cursor is the one it was asked for: the cursor did not move.
pub open spec fn cursor_stalled(requested: Option<Seq<char>>, next: Option<Seq<char>>) -> bool {
    requested is Some && next is Some && requested == next
}

impl SearchAttempts {
    pub fn new() -> (a: SearchAttempts)
        ensures
            a.retries == 0,
            !a.possible_duplicate_charge,
    {
        SearchAttempts { retries: 0, possible_duplicate_charge: false }
    }

    fn retry(&mut self, policy: &RetryPolicy, retry_after: Option<u64>) -> (action: SearchAction)
        requires
            old(self).retries < policy.max_retries,
        ensures
            action == (SearchAction::Retry { delay: retry_delay(*policy, old(self).retries, retry_after) }),
            final(self).retries == old(self).retries + 1,
            final(self).possible_duplicate_charge == old(self).possible_duplicate_charge,
    {
        let delay = policy.delay(self.retries, retry_after);
        self.retries = self.retries + 1;
        SearchAction::Retry { delay }
    }

    /// Decides what follows an event of one logical search request.
    pub fn step(
        &mut self,
        policy: &RetryPolicy,
        event: SearchEvent,
        fields: &[ReturnField],
        requested_cursor: Option<&str>,
    ) -> (action: SearchAction)
        ensures
            match event {
                SearchEvent::Cancelled => *final(self) == *old(self) && (action matches SearchAction::Finish(
                    Err(e),
                ) && e@ == FofaErrorView::Cancelled),
                SearchEvent::TransportFailed { builder, connect, status } => {
                    let s = transport_step(*old(self), *policy, builder, connect, status);
                    acts(action, s) && *final(self) == after_step(*old(self), s)
                },
                SearchEvent::Responded { status, retry_after, content_length } => {
                    let s = http_status_step(
                        *old(self),
                        *policy,
                        status,
                        retry_after,
                        content_length,
                    );
                    &&& acts(action, s)
                    &&& final(self).retries == after_step(*old(self), s).retries
                    &&& final(self).possible_duplicate_charge == (old(
                        self,
                    ).possible_duplicate_charge || status == 502 || status == 503)
                },
                SearchEvent::BodyFailed(e) => *final(self) == *old(self) && (action matches SearchAction::Finish(
                    Err(x),
                ) && x@ == e@),
                SearchEvent::BodyRead(None) => *final(self) == *old(self) && (action matches SearchAction::Finish(
                    Err(x),
                ) && x@ == protocol_error("上游响应不是有效的搜索 JSON"@)),
                SearchEvent::BodyRead(Some(raw)) => if raw.error {
                    let s = business_step(*old(self), *policy, crate::urls::opt_view(raw.errmsg));
                    acts(action, s) && *final(self) == after_step(*old(self), s)
                } else if raw.tip matches Some(t) && quota_exhausted_message(t@) {
                    *final(self) == *old(self) && (action matches SearchAction::Finish(Err(x)) && x@
                        == FofaErrorView::QuotaExhausted)
                } else {
                    let requested = match requested_cursor {
                        Some(c) => Some(c@),
                        None => None,
                    };
                    &&& *final(self) == *old(self)
                    &&& match action {
                        SearchAction::Finish(Ok(resp)) => {
                            &&& raw.results is Some
                            &&& crate::fofa::models::normalized_results(
                                raw.results->Some_0,
                                field_views(fields@),
                            ) == Ok::<
                                Seq<Seq<crate::fofa::models::CellView>>,
                                FofaErrorView,
                            >(crate::fofa::models::row_views(resp.rows@))
                            &&& crate::urls::opt_view(resp.query) == crate::urls::opt_view(
                                raw.query,
                            )
                            &&& crate::urls::opt_view(resp.mode) == crate::urls::opt_view(raw.mode)
                            &&& resp.matched_size == raw.size
                            &&& resp.page == raw.page
                            &&& crate::urls::opt_view(resp.next)
                                == crate::fofa::models::effective_cursor(raw.next)
                            &&& crate::urls::opt_view(resp.tip) == crate::urls::opt_view(raw.tip)
                            &&& !cursor_stalled(requested, crate::urls::opt_view(resp.next))
                            &&& resp.retry == final_stats(*old(self))
                        },
                        SearchAction::Finish(Err(e)) => {
                            ||| raw.results is None && e@ == protocol_error(
                                "成功响应缺少 results 字段"@,
                            )
                            ||| raw.results is Some && crate::fofa::models::normalized_results(
                                raw.results->Some_0,
                                field_views(fields@),
                            ) == Err::<Seq<Seq<crate::fofa::models::CellView>>, FofaErrorView>(e@)
                            ||| raw.results is Some && crate::fofa::models::normalized_results(
                                raw.results->Some_0,
                                field_views(fields@),
                            ) is Ok && cursor_stalled(
                                requested,
                                crate::fofa::models::effective_cursor(raw.next),
                            ) && e@ == protocol_error("连续分页游标未推进"@)
                        },
                        _ => false,
                    }
                },
            },
    {
        match event {
            SearchEvent::Cancelled => SearchAction::Finish(Err(FofaError::Cancelled)),
            SearchEvent::TransportFailed { builder, connect, status } => {
                if builder {
                    SearchAction::Finish(Err(FofaError::protocol("无法编码 FOFA 请求参数")))
                } else if connect && self.retries < policy.max_retries {
                    self.retry(policy, None)
                } else {
                    SearchAction::Finish(
                        Err(
                            FofaError::UpstreamUnavailable {
                                status,
                                possible_duplicate_charge: !connect,
                            },
                        ),
                    )
                }
            },
            SearchEvent::Responded { status, retry_after, content_length } => {
                if status == 429 {
                    if self.retries < policy.max_retries {
                        return self.retry(policy, retry_after);
                    }
                    return SearchAction::Finish(Err(FofaError::RateLimited { retry_after }));
                }
                if status == 502 || status == 503 {
                    self.possible_duplicate_charge = true;
                    if self.retries < policy.max_retries {
                        return self.retry(policy, retry_after);
                    }
                    return SearchAction::Finish(
                        Err(
                            FofaError::UpstreamUnavailable {
                                status: Some(status),
                                possible_duplicate_charge: true,
                            },
                        ),
                    );
                }
                if status == 401 || status == 403 {
                    return SearchAction::Finish(Err(FofaError::AuthenticationRejected));
                }
                if status == 402 {
                    return SearchAction::Finish(Err(FofaError::QuotaExhausted));
                }
                if !(200 <= status && status <= 299) {
                    if (500 <= status && status <= 599) || status == 408 {
                        return SearchAction::Finish(
                            Err(
                                FofaError::UpstreamUnavailable {
                                    status: Some(status),
                                    possible_duplicate_charge: true,
                                },
                            ),
                        );
                    }
                    let mut reason = String::new();
                    push_str(&mut reason, "上游返回 HTTP ");
                    push_decimal(&mut reason, status as u64);
                    return SearchAction::Finish(Err(FofaError::UpstreamProtocol { reason }));
                }
                match check_content_length(content_length) {
                    Ok(()) => SearchAction::ReadBody,
                    Err(e) => SearchAction::Finish(Err(e)),
                }
            },
            SearchEvent::BodyFailed(e) => SearchAction::Finish(Err(e)),
            SearchEvent::BodyRead(None) => SearchAction::Finish(
                Err(FofaError::protocol("上游响应不是有效的搜索 JSON")),
            ),
            SearchEvent::BodyRead(Some(raw)) => {
                if raw.error {
                    let business = classify_business_error(
                        match &raw.errmsg {
                            Some(m) => Some(m.as_str()),
                            None => None,
                        },
                    );
                    let rate_limited = match &business {
                        BusinessError::RateLimited => true,
                        _ => false,
                    };
                    if rate_limited && self.retries < policy.max_retries {
                        return self.retry(policy, None);
                    }
                    return SearchAction::Finish(Err(business.into_fofa_error()));
                }
                let quota = match &raw.tip {
                    Some(t) => is_quota_exhausted(t.as_str()),
                    None => false,
                };
                if quota {
                    return SearchAction::Finish(Err(FofaError::QuotaExhausted));
                }
                let normalized = match raw.normalize(fields) {
                    Ok(r) => r,
                    Err(e) => return SearchAction::Finish(Err(e)),
                };
                let stalled = match (requested_cursor, &normalized.next) {
                    (Some(old), Some(new)) => crate::text::str_eq(old, new.as_str()),
                    _ => false,
                };
                if stalled {
                    return SearchAction::Finish(Err(FofaError::protocol("连续分页游标未推进")));
                }
                let mut response = normalized;
                response.retry = RetryStats {
                    attempts: self.retries.saturating_add(1),
                    retries: self.retries,
                    possible_duplicate_charge: self.possible_duplicate_charge,
                };
                SearchAction::Finish(Ok(response))
            },
        }
    }
}

} // verus!
