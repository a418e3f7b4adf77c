//! Stored searches: status values, the stored record, and how a stored row
//! becomes a record. Reading and writing the database is left to the caller.
use vstd::prelude::*;

use crate::text::{char_from_ascii, push_char, str_eq};

verus! {

/// The only user of the console.
pub const SINGLE_USER_ID: u64 = 0;

pub const DEFAULT_MAX_RESULTS: u64 = 100;

pub const MAX_RESULTS: u64 = 10000;

#[derive(Clone, Copy, Debug, PartialEq, Eq, Structural)]
pub enum SearchStatus {
    Queued,
    Running,
    Cancelling,
    Completed,
    Failed,
    Cancelled,
}

/// The storage spelling of a status.
pub open spec fn status_text(s: SearchStatus) -> Seq<char> {
    match s {
        SearchStatus::Queued => "queued"@,
        SearchStatus::Running => "running"@,
        SearchStatus::Cancelling => "cancelling"@,
        SearchStatus::Completed => "completed"@,
        SearchStatus::Failed => "failed"@,
        SearchStatus::Cancelled => "cancelled"@,
    }
}

/// The status a storage spelling stands for.
pub open spec fn status_of(text: Seq<char>) -> Option<SearchStatus> {
    if text == "queued"@ {
        Some(SearchStatus::Queued)
    } else if text == "running"@ {
        Some(SearchStatus::Running)
    } else if text == "cancelling"@ {
        Some(SearchStatus::Cancelling)
    } else if text == "completed"@ {
        Some(SearchStatus::Completed)
    } else if text == "failed"@ {
        Some(SearchStatus::Failed)
    } else if text == "cancelled"@ {
        Some(SearchStatus::Cancelled)
    } else {
        None
    }
}

impl SearchStatus {
    pub fn as_str(self) -> (s: &'static str)
        ensures
            s@ == status_text(self),
    {
        match self {
            SearchStatus::Queued => "queued",
            SearchStatus::Running => "running",
            SearchStatus::Cancelling => "cancelling",
            SearchStatus::Completed => "completed",
            SearchStatus::Failed => "failed",
            SearchStatus::Cancelled => "cancelled",
        }
    }

    /// Reads a storage spelling; anything else is refused.
    pub fn try_from(value: &str) -> (r: Result<SearchStatus, ()>)
        ensures
            r == match status_of(value@) {
                Some(s) => Ok::<SearchStatus, ()>(s),
                None => Err::<SearchStatus, ()>(()),
            },
    {
        if str_eq(value, "queued") {
            Ok(SearchStatus::Queued)
        } else if str_eq(value, "running") {
            Ok(SearchStatus::Running)
        } else if str_eq(value, "cancelling") {
            Ok(SearchStatus::Cancelling)
        } else if str_eq(value, "completed") {
            Ok(SearchStatus::Completed)
        } else if str_eq(value, "failed") {
            Ok(SearchStatus::Failed)
        } else if str_eq(value, "cancelled") {
            Ok(SearchStatus::Cancelled)
        } else {
            Err(())
        }
    }

    /// A finished search can no longer be cancelled.
    pub fn is_finished(self) -> (b: bool)
        ensures
            b == (self == SearchStatus::Completed || self == SearchStatus::Failed || self
                == SearchStatus::Cancelled),
    {
        match self {
            SearchStatus::Completed | SearchStatus::Failed | SearchStatus::Cancelled => true,
            _ => false,
        }
    }
}

/// Every status reads back from its storage spelling, and no other spelling
/// reads as that status.
pub proof fn lemma_status_round_trip(s: SearchStatus, text: Seq<char>)
    ensures
        status_of(status_text(s)) == Some(s),
        status_of(text) == Some(s) ==> text == status_text(s),
{
    reveal_strlit("queued");
    reveal_strlit("running");
    reveal_strlit("cancelling");
    reveal_strlit("completed");
    reveal_strlit("failed");
    reveal_strlit("cancelled");
    assert("queued"@[0] == 'q');
    assert("running"@[0] == 'r');
    assert("cancelling"@.len() == 10);
    assert("cancelled"@.len() == 9);
    assert("completed"@[1] == 'o');
    assert("cancelling"@[1] == 'a');
    assert("cancelled"@[1] == 'a');
    assert("failed"@[0] == 'f');
    assert("running"@ != "queued"@);
    assert("cancelling"@ != "queued"@ && "cancelling"@ != "running"@);
    assert("completed"@ != "queued"@ && "completed"@ != "running"@ && "completed"@
        != "cancelling"@);
    assert("failed"@ != "queued"@ && "failed"@ != "running"@ && "failed"@ != "cancelling"@
        && "failed"@ != "completed"@);
    assert("cancelled"@ != "queued"@ && "cancelled"@ != "running"@ && "cancelled"@
        != "cancelling"@ && "cancelled"@ != "completed"@ && "cancelled"@ != "failed"@);
}

/// What `uuid::Uuid::parse_str` makes of a text, as a number.
pub uninterp spec fn parsed_uuid(text: Seq<char>) -> Option<u128>;

/// The lower-case hexadecimal digit of a value below 16.
pub open spec fn hex_char(d: int) -> char {
    (if d < 10 {
        48 + d
    } else {
        87 + d
    }) as u32 as char
}

/// The last `k` hexadecimal digits of `n`, least significant first.
pub open spec fn low_hex_digits(n: nat, k: nat) -> Seq<char>
    decreases k,
{
    if k == 0 {
        Seq::empty()
    } else {
        seq![hex_char((n % 16) as int)] + low_hex_digits(n / 16, (k - 1) as nat)
    }
}

/// The 32 hexadecimal digits of a UUID, most significant first.
pub open spec fn uuid_hex(id: u128) -> Seq<char> {
    low_hex_digits(id as nat, 32).reverse()
}

/// A UUID as `uuid::Uuid::from_u128(id).to_string()` writes it: the
/// hyphenated lower-case form, 8-4-4-4-12 digits.
pub open spec fn uuid_spelling(id: u128) -> Seq<char> {
    let h = uuid_hex(id);
    h.subrange(0, 8) + seq!['-'] + h.subrange(8, 12) + seq!['-'] + h.subrange(12, 16) + seq!['-']
        + h.subrange(16, 20) + seq!['-'] + h.subrange(20, 32)
}

/// What `serde_json::from_str::<Vec<String>>` makes of a text.
pub uninterp spec fn json_string_list(text: Seq<char>) -> Option<Seq<Seq<char>>>;

/// What `chrono::DateTime::parse_from_rfc3339` makes of a text, written
/// back in UTC with `to_rfc3339`.
pub uninterp spec fn rfc3339_utc(text: Seq<char>) -> Option<Seq<char>>;

/// Parses a UUID with `uuid::Uuid::parse_str` and reads it with `as_u128`.
/// The contract names the result.
#[verifier::external_body]
pub(crate) fn parse_uuid(text: &str) -> (r: Option<u128>)
    ensures
        r == parsed_uuid(text@),
{
    uuid::Uuid::parse_str(text).ok().map(|id| id.as_u128())
}

fn hex_digit(d: u128) -> (c: char)
    requires
        d < 16,
    ensures
        c == hex_char(d as int),
{
    let b: u8 = if d < 10 {
        48 + d as u8
    } else {
        87 + d as u8
    };
    let c = char_from_ascii(b);
    proof {
        vstd::utf8::char_u32_cast(c, c as u32);
    }
    c
}

/// Appends digits `a..b` of the most-significant-first reading of `low`.
fn push_hex_range(out: &mut String, low: &Vec<char>, a: usize, b: usize)
    requires
        low@.len() == 32,
        a <= b <= 32,
    ensures
        final(out)@ == old(out)@ + low@.reverse().subrange(a as int, b as int),
{
    let ghost start = out@;
    let ghost h = low@.reverse();
    let mut j: usize = a;
    while j < b
        invariant
            a <= j <= b <= 32,
            low@.len() == 32,
            h == low@.reverse(),
            out@ == start + h.subrange(a as int, j as int),
        decreases b - j,
    {
        assert(h[j as int] == low@[31 - j]);
        push_char(out, low[31 - j]);
        assert(out@ =~= start + h.subrange(a as int, j + 1));
        j += 1;
    }
}

/// Writes a UUID given as a number in the hyphenated lower-case form, as
/// `uuid::Uuid::from_u128(id).to_string()` does.
pub fn uuid_text(id: u128) -> (s: String)
    ensures
        s@ == uuid_spelling(id),
{
    let mut low: Vec<char> = Vec::new();
    let mut n: u128 = id;
    let mut k: usize = 0;
    while k < 32
        invariant
            k <= 32,
            low@.len() == k,
            low_hex_digits(id as nat, 32) == low@ + low_hex_digits(n as nat, (32 - k) as nat),
        decreases 32 - k,
    {
        let c = hex_digit(n % 16);
        let ghost before = low@;
        low.push(c);
        assert(low_hex_digits(n as nat, (32 - k) as nat) == seq![hex_char((n % 16) as int)]
            + low_hex_digits((n / 16) as nat, (32 - k - 1) as nat));
        assert(before + low_hex_digits(n as nat, (32 - k) as nat) =~= low@ + low_hex_digits(
            (n / 16) as nat,
            (32 - k - 1) as nat,
        ));
        n = n / 16;
        k += 1;
    }
    assert(low@ =~= low_hex_digits(id as nat, 32));
    let mut s = String::new();
    push_hex_range(&mut s, &low, 0, 8);
    push_char(&mut s, '-');
    push_hex_range(&mut s, &low, 8, 12);
    push_char(&mut s, '-');
    push_hex_range(&mut s, &low, 12, 16);
    push_char(&mut s, '-');
    push_hex_range(&mut s, &low, 16, 20);
    push_char(&mut s, '-');
    push_hex_range(&mut s, &low, 20, 32);
    assert(s@ =~= uuid_spelling(id));
    s
}

/// The id of a search, read from its UUID spelling as
/// `uuid::Uuid::parse_str` reads it.
pub fn parse_search_id(text: &str) -> (r: Option<u128>)
    ensures
        r == parsed_uuid(text@),
{
    parse_uuid(text)
}

/// Parses a JSON array of strings with `serde_json::from_str`. The contract
/// names the result.
#[verifier::external_body]
fn parse_string_list(text: &str) -> (r: Option<Vec<String>>)
    ensures
        match r {
            Some(v) => json_string_list(text@) == Some(crate::export::csv::views_of(v@)),
            None => json_string_list(text@) is None,
        },
{
    serde_json::from_str::<Vec<String>>(text).ok()
}

/// Parses an RFC 3339 time with `chrono::DateTime::parse_from_rfc3339` and
/// writes it back in UTC with `to_rfc3339`. The contract names the result.
#[verifier::external_body]
fn normalize_rfc3339(text: &str) -> (r: Option<String>)
    ensures
        match r {
            Some(s) => rfc3339_utc(text@) == Some(s@),
            None => rfc3339_utc(text@) is None,
        },
{
    chrono::DateTime::parse_from_rfc3339(text).ok().map(
        |date| date.with_timezone(&chrono::Utc).to_rfc3339(),
    )
}

/// A stored search as the database holds it.
pub struct SearchRow {
    pub id: String,
    pub query: String,
    pub fields_json: String,
    pub format: String,
    pub max_results: i64,
    pub full: i64,
    pub status: String,
    pub matched_size: Option<i64>,
    pub written_rows: i64,
    pub upstream_attempts: i64,
    pub retries: i64,
    pub possible_duplicate_charge: i64,
    pub error_code: Option<String>,
    pub error_message: Option<String>,
    pub created_at: String,
    pub started_at: Option<String>,
    pub completed_at: Option<String>,
    pub updated_at: String,
}

/// A stored search. `id` is the search's UUID as a number; times are RFC
/// 3339 texts in UTC.
pub struct SearchRecord {
    pub id: u128,
    pub query: String,
    pub fields: Vec<String>,
    pub format: String,
    pub max_results: u64,
    pub full: bool,
    pub status: SearchStatus,
    pub matched_size: Option<u64>,
    pub written_rows: u64,
    pub upstream_attempts: u64,
    pub retries: u64,
    pub possible_duplicate_charge: bool,
    pub error_code: Option<String>,
    pub error_message: Option<String>,
    pub created_at: String,
    pub started_at: Option<String>,
    pub completed_at: Option<String>,
    pub updated_at: String,
}

pub open spec fn opt_time_ok(t: Option<String>) -> bool {
    match t {
        Some(x) => rfc3339_utc(x@) is Some,
        None => true,
    }
}

pub open spec fn opt_time_view(t: Option<String>) -> Option<Seq<char>> {
    match t {
        Some(x) => rfc3339_utc(x@),
        None => None,
    }
}

/// A stored row can be read: its id, field list, status and times parse,
/// and its counters are not negative.
pub open spec fn row_readable(row: SearchRow) -> bool {
    &&& parsed_uuid(row.id@) is Some
    &&& json_string_list(row.fields_json@) is Some
    &&& row.max_results >= 0
    &&& status_of(row.status@) is Some
    &&& (row.matched_size matches Some(m) ==> m >= 0)
    &&& row.written_rows >= 0
    &&& row.upstream_attempts >= 0
    &&& row.retries >= 0
    &&& rfc3339_utc(row.created_at@) is Some
    &&& opt_time_ok(row.started_at)
    &&& opt_time_ok(row.completed_at)
    &&& rfc3339_utc(row.updated_at@) is Some
}

fn to_u64(v: i64) -> (r: Result<u64, ()>)
    ensures
        v >= 0 ==> r == Ok::<u64, ()>(v as u64),
        v < 0 ==> r is Err,
{
    if v < 0 {
        Err(())
    } else {
        Ok(v as u64)
    }
}

fn read_time(t: &Option<String>) -> (r: Result<Option<String>, ()>)
    ensures
        opt_time_ok(*t) ==> (r matches Ok(x) && crate::urls::opt_view(x) == opt_time_view(*t)),
        !opt_time_ok(*t) ==> r is Err,
{
    match t {
        Some(text) => match normalize_rfc3339(text.as_str()) {
            Some(s) => Ok(Some(s)),
            None => Err(()),
        },
        None => Ok(None),
    }
}

impl SearchRecord {
    /// Reads a stored row. Integers are flags when non-zero.
    pub fn try_from(row: SearchRow) -> (r: Result<SearchRecord, ()>)
        ensures
            r is Ok <==> row_readable(row),
            r matches Ok(rec) ==> {
                &&& Some(rec.id) == parsed_uuid(row.id@)
                &&& rec.query@ == row.query@
                &&& json_string_list(row.fields_json@) == Some(
                    crate::export::csv::views_of(rec.fields@),
                )
                &&& rec.format@ == row.format@
                &&& rec.max_results == row.max_results
                &&& rec.full == (row.full != 0)
                &&& Some(rec.status) == status_of(row.status@)
                &&& match row.matched_size {
                    Some(m) => rec.matched_size == Some(m as u64),
                    None => rec.matched_size is None,
                }
                &&& rec.written_rows == row.written_rows
                &&& rec.upstream_attempts == row.upstream_attempts
                &&& rec.retries == row.retries
                &&& rec.possible_duplicate_charge == (row.possible_duplicate_charge != 0)
                &&& crate::urls::opt_view(rec.error_code) == crate::urls::opt_view(row.error_code)
                &&& crate::urls::opt_view(rec.error_message) == crate::urls::opt_view(
                    row.error_message,
                )
                &&& Some(rec.created_at@) == rfc3339_utc(row.created_at@)
                &&& crate::urls::opt_view(rec.started_at) == opt_time_view(row.started_at)
                &&& crate::urls::opt_view(rec.completed_at) == opt_time_view(row.completed_at)
                &&& Some(rec.updated_at@) == rfc3339_utc(row.updated_at@)
            },
    {
        let id = match parse_uuid(row.id.as_str()) {
            Some(id) => id,
            None => return Err(()),
        };
        let fields = match parse_string_list(row.fields_json.as_str()) {
            Some(f) => f,
            None => return Err(()),
        };
        let max_results = match to_u64(row.max_results) {
            Ok(v) => v,
            Err(()) => return Err(()),
        };
        let status = match SearchStatus::try_from(row.status.as_str()) {
            Ok(s) => s,
            Err(()) => return Err(()),
        };
        let matched_size = match row.matched_size {
            Some(m) => match to_u64(m) {
                Ok(v) => Some(v),
                Err(()) => return Err(()),
            },
            None => None,
        };
        let written_rows = match to_u64(row.written_rows) {
            Ok(v) => v,
            Err(()) => return Err(()),
        };
        let upstream_attempts = match to_u64(row.upstream_attempts) {
            Ok(v) => v,
            Err(()) => return Err(()),
        };
        let retries = match to_u64(row.retries) {
            Ok(v) => v,
            Err(()) => return Err(()),
        };
        let created_at = match normalize_rfc3339(row.created_at.as_str()) {
            Some(s) => s,
            None => return Err(()),
        };
        let started_at = match read_time(&row.started_at) {
            Ok(t) => t,
            Err(()) => return Err(()),
        };
        let completed_at = match read_time(&row.completed_at) {
            Ok(t) => t,
            Err(()) => return Err(()),
        };
        let updated_at = match normalize_rfc3339(row.updated_at.as_str()) {
            Some(s) => s,
            None => return Err(()),
        };
        Ok(
            SearchRecord {
                id,
                query: row.query,
                fields,
                format: row.format,
                max_results,
                full: row.full != 0,
                status,
                matched_size,
                written_rows,
                upstream_attempts,
                retries,
                possible_duplicate_charge: row.possible_duplicate_charge != 0,
                error_code: row.error_code,
                error_message: row.error_message,
                created_at,
                started_at,
                completed_at,
                updated_at,
            },
        )
    }
}

} // verus!
