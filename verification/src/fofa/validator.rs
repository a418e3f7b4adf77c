//! Query and return-field validation for the official FOFA API and for
//! FOFA-compatible relays.
use vstd::prelude::*;

use crate::fofa::error::{FofaError, FofaErrorView};
use crate::fofa::models::{ReturnField, ReturnFieldView};
use crate::text::{
    chars_eq, chars_of, char_from_ascii, lemma_utf8_len_is_encoding_len, push_char, trim_bounds, trimmed,
    utf8_len,
};

verus! {

pub const DEFAULT_REQUEST_SIZE: u32 = 10_000;

pub const LARGE_FIELD_REQUEST_SIZE: u32 = 2_000;

pub const OFFICIAL_BODY_REQUEST_SIZE: u32 = 500;

/// Maximum query size in bytes.
pub const MAX_QUERY_CHARS: usize = 16384;

/// Fields documented by FOFA for `/api/v1/search/all`.
pub const OFFICIAL_RETURN_FIELD_NAMES: [&'static str; 51] = [
    "ip",
    "port",
    "protocol",
    "country",
    "country_name",
    "region",
    "city",
    "longitude",
    "latitude",
    "asn",
    "org",
    "host",
    "domain",
    "os",
    "server",
    "icp",
    "title",
    "jarm",
    "header",
    "banner",
    "cert",
    "base_protocol",
    "link",
    "cert.issuer.org",
    "cert.issuer.cn",
    "cert.subject.org",
    "cert.subject.cn",
    "tls.ja3s",
    "tls.version",
    "cert.sn",
    "cert.not_before",
    "cert.not_after",
    "cert.domain",
    "status_code",
    "header_hash",
    "banner_hash",
    "banner_fid",
    "cname",
    "lastupdatetime",
    "product",
    "product_category",
    "product.version",
    "icon_hash",
    "cert.is_valid",
    "cname_domain",
    "body",
    "cert.is_match",
    "cert.is_equal",
    "icon",
    "fid",
    "structinfo",
];

/// Fields documented by the FOFA-compatible relay for result display.
pub const RELAY_RETURN_FIELD_NAMES: [&'static str; 40] = [
    "ip",
    "port",
    "protocol",
    "country",
    "country_name",
    "region",
    "city",
    "longitude",
    "latitude",
    "asn",
    "org",
    "host",
    "domain",
    "os",
    "server",
    "icp",
    "title",
    "jarm",
    "header",
    "banner",
    "cert",
    "base_protocol",
    "link",
    "cert.issuer.org",
    "cert.issuer.cn",
    "cert.subject.org",
    "cert.subject.cn",
    "tls.ja3s",
    "tls.version",
    "cert.sn",
    "cert.not_before",
    "cert.not_after",
    "cert.domain",
    "header_hash",
    "banner_hash",
    "banner_fid",
    "cname",
    "lastupdatetime",
    "product",
    "product_category",
];

/// Query fields whose relay support is contradictory; rejected conservatively.
pub const RELAY_CONFLICT_QUERY_FIELDS: [&'static str; 2] = ["is_fraud", "is_honeypot"];

/// Query fields accepted by the relay.
pub const RELAY_QUERY_FIELDS: [&'static str; 54] = [
    "ip",
    "port",
    "domain",
    "host",
    "os",
    "server",
    "asn",
    "org",
    "is_domain",
    "is_ipv6",
    "app",
    "fid",
    "product",
    "category",
    "type",
    "cloud_name",
    "is_cloud",
    "is_fraud",
    "is_honeypot",
    "protocol",
    "banner",
    "base_protocol",
    "title",
    "header",
    "header_hash",
    "body",
    "body_hash",
    "js_name",
    "js_md5",
    "cname",
    "cname_domain",
    "icon_hash",
    "status_code",
    "icp",
    "country",
    "region",
    "city",
    "cert",
    "cert.subject",
    "cert.issuer",
    "cert.subject.org",
    "cert.subject.cn",
    "cert.issuer.org",
    "cert.issuer.cn",
    "cert.domain",
    "cert.is_equal",
    "cert.is_valid",
    "cert.is_match",
    "cert.is_expired",
    "jarm",
    "tls.version",
    "tls.ja3s",
    "after",
    "before",
];

/// Which upstream the console talks to.
#[derive(Clone, Copy, Debug, PartialEq, Eq, Structural)]
pub enum ApiMode {
    Official,
    Relay,
}

/// The characters of a list of names.
pub open spec fn name_views(names: Seq<&str>) -> Seq<Seq<char>> {
    names.map_values(|s: &str| s@)
}

/// The return-field catalog of a mode.
pub open spec fn catalog(mode: ApiMode) -> Seq<Seq<char>> {
    match mode {
        ApiMode::Official => name_views(OFFICIAL_RETURN_FIELD_NAMES@),
        ApiMode::Relay => name_views(RELAY_RETURN_FIELD_NAMES@),
    }
}

/// A host names the official API when, without trailing dots, it equals
/// `fofa.info` ignoring ASCII case.
pub open spec fn is_official_host(host: Seq<char>) -> bool {
    crate::text::ascii_lowercase(trim_trailing_dots(host)) == "fofa.info"@
}

/// `str::trim_end_matches('.')`.
pub open spec fn trim_trailing_dots(s: Seq<char>) -> Seq<char>
    decreases s.len(),
{
    if s.len() > 0 && s.last() == '.' {
        trim_trailing_dots(s.drop_last())
    } else {
        s
    }
}

pub open spec fn mode_of_host(host: Option<Seq<char>>) -> ApiMode {
    match host {
        Some(h) => if is_official_host(h) {
            ApiMode::Official
        } else {
            ApiMode::Relay
        },
        None => ApiMode::Relay,
    }
}

impl ApiMode {
    /// The mode of a base URL with the given host: only `fofa.info` is official.
    pub fn from_host(host: Option<&str>) -> (m: ApiMode)
        ensures
            m == mode_of_host(match host {
                Some(h) => Some(h@),
                None => None,
            }),
    {
        match host {
            None => ApiMode::Relay,
            Some(h) => {
                let v = chars_of(h);
                let mut end = v.len();
                assert(v@.take(end as int) =~= v@);
                while end > 0 && v[end - 1] == '.'
                    invariant
                        end <= v@.len(),
                        trim_trailing_dots(v@) == trim_trailing_dots(v@.take(end as int)),
                    decreases end,
                {
                    assert(v@.take(end - 1) =~= v@.take(end as int).drop_last());
                    end -= 1;
                }
                let lowered = crate::text::ascii_lowercase_chars(
                    crate::text::slice_range(v.as_slice(), 0, end),
                );
                assert(v@.subrange(0, end as int) =~= v@.take(end as int));
                if chars_eq(lowered.as_slice(), chars_of("fofa.info").as_slice()) {
                    ApiMode::Official
                } else {
                    ApiMode::Relay
                }
            },
        }
    }
}

impl ApiMode {
    /// The mode of a base URL: only a URL whose host is `fofa.info` is official.
    pub fn from_base_url(base_url: &str) -> (m: ApiMode)
        ensures
            m == mode_of_host(crate::urls::url_host(base_url@)),
    {
        match crate::urls::parse_url(base_url) {
            Some(parts) => match &parts.host {
                Some(h) => ApiMode::from_host(Some(h.as_str())),
                None => ApiMode::Relay,
            },
            None => ApiMode::Relay,
        }
    }
}

/// The return-field names supported by a mode.
pub fn supported_return_field_names(mode: ApiMode) -> (r: &'static [&'static str])
    ensures
        name_views(r@) == catalog(mode),
{
    match mode {
        ApiMode::Official => &OFFICIAL_RETURN_FIELD_NAMES,
        ApiMode::Relay => &RELAY_RETURN_FIELD_NAMES,
    }
}

/// Every supported field of a mode, with its API name as output name.
pub fn default_return_fields(mode: ApiMode) -> (r: Vec<ReturnField>)
    ensures
        r@.len() == catalog(mode).len(),
        forall|i: int|
            0 <= i < r@.len() ==> r@[i].api_name@ == catalog(mode)[i] && r@[i].output_name@
                == catalog(mode)[i],
{
    let names = supported_return_field_names(mode);
    let mut r: Vec<ReturnField> = Vec::new();
    let mut i: usize = 0;
    while i < names.len()
        invariant
            i <= names@.len(),
            name_views(names@) == catalog(mode),
            r@.len() == i,
            forall|k: int|
                0 <= k < i ==> r@[k].api_name@ == catalog(mode)[k] && r@[k].output_name@
                    == catalog(mode)[k],
        decreases names@.len() - i,
    {
        r.push(ReturnField::api(names[i]));
        i += 1;
    }
    r
}

/// Whether a list of fields requests the given API name.
pub open spec fn requests(fields: Seq<ReturnFieldView>, name: Seq<char>) -> bool {
    exists|i: int| 0 <= i < fields.len() && #[trigger] fields[i].api_name == name
}

/// The largest `size` one request may ask for, given the returned fields.
pub open spec fn field_limit_spec(mode: ApiMode, fields: Seq<ReturnFieldView>) -> u32 {
    match mode {
        ApiMode::Official => if requests(fields, "body"@) {
            OFFICIAL_BODY_REQUEST_SIZE
        } else if requests(fields, "cert"@) || requests(fields, "banner"@) {
            LARGE_FIELD_REQUEST_SIZE
        } else {
            DEFAULT_REQUEST_SIZE
        },
        ApiMode::Relay => if requests(fields, "header"@) || requests(fields, "banner"@) || requests(
            fields,
            "cert"@,
        ) {
            LARGE_FIELD_REQUEST_SIZE
        } else {
            DEFAULT_REQUEST_SIZE
        },
    }
}

/// Some field of the list is sent to FOFA under the API name `name`.
pub open spec fn asks_for(fields: Seq<ReturnFieldView>, name: Seq<char>) -> bool {
    exists|i: int| 0 <= i < fields.len() && #[trigger] fields[i].api_name == name
}

/// The row cap of one request follows the heaviest field asked for. On the
/// official API, `body` caps a request at 500 rows; otherwise `cert` or
/// `banner` cap it at 2000; otherwise it is 10000. On a relay, `header`,
/// `banner` or `cert` cap it at 2000; otherwise it is 10000. Asking for one
/// more field never raises the cap, and a validated search carries it.
pub proof fn lemma_request_size_caps(
    mode: ApiMode,
    query: Seq<char>,
    fields: Seq<ReturnFieldView>,
    extra: ReturnFieldView,
)
    ensures
        mode == ApiMode::Official && asks_for(fields, "body"@) ==> field_limit_spec(mode, fields)
            == 500,
        mode == ApiMode::Official && !asks_for(fields, "body"@) && (asks_for(fields, "cert"@)
            || asks_for(fields, "banner"@)) ==> field_limit_spec(mode, fields) == 2000,
        mode == ApiMode::Official && !asks_for(fields, "body"@) && !asks_for(fields, "cert"@)
            && !asks_for(fields, "banner"@) ==> field_limit_spec(mode, fields) == 10000,
        mode == ApiMode::Relay && (asks_for(fields, "header"@) || asks_for(fields, "banner"@)
            || asks_for(fields, "cert"@)) ==> field_limit_spec(mode, fields) == 2000,
        mode == ApiMode::Relay && !asks_for(fields, "header"@) && !asks_for(fields, "banner"@)
            && !asks_for(fields, "cert"@) ==> field_limit_spec(mode, fields) == 10000,
        field_limit_spec(mode, fields.push(extra)) <= field_limit_spec(mode, fields),
        validation_outcome(mode, query, fields) matches Ok((max, _)) ==> max == field_limit_spec(
            mode,
            fields,
        ),
{
    let more = fields.push(extra);
    assert forall|n: Seq<char>| requests(fields, n) implies requests(more, n) by {
        let i = choose|i: int| 0 <= i < fields.len() && #[trigger] fields[i].api_name == n;
        assert(more[i] == fields[i]);
    }
    assert forall|n: Seq<char>| #[trigger] requests(fields, n) == asks_for(fields, n) by {}
}

/// Whether some field has the given API name.
fn requests_exec(fields: &[ReturnField], name: &str) -> (b: bool)
    ensures
        b == requests(crate::fofa::models::field_views(fields@), name@),
{
    let target = chars_of(name);
    let ghost views = crate::fofa::models::field_views(fields@);
    let mut i: usize = 0;
    while i < fields.len()
        invariant
            i <= fields@.len(),
            views == crate::fofa::models::field_views(fields@),
            target@ == name@,
            forall|k: int| 0 <= k < i ==> views[k].api_name != name@,
        decreases fields@.len() - i,
    {
        let api = chars_of(fields[i].api_name.as_str());
        if chars_eq(api.as_slice(), target.as_slice()) {
            assert(views[i as int].api_name == name@);
            return true;
        }
        i += 1;
    }
    false
}

/// The per-request size cap of a field list.
pub fn field_limit(mode: ApiMode, fields: &[ReturnField]) -> (n: u32)
    ensures
        n == field_limit_spec(mode, crate::fofa::models::field_views(fields@)),
{
    match mode {
        ApiMode::Official => {
            if requests_exec(fields, "body") {
                OFFICIAL_BODY_REQUEST_SIZE
            } else if requests_exec(fields, "cert") || requests_exec(fields, "banner") {
                LARGE_FIELD_REQUEST_SIZE
            } else {
                DEFAULT_REQUEST_SIZE
            }
        },
        ApiMode::Relay => {
            if requests_exec(fields, "header") || requests_exec(fields, "banner")
                || requests_exec(fields, "cert") {
                LARGE_FIELD_REQUEST_SIZE
            } else {
                DEFAULT_REQUEST_SIZE
            }
        },
    }
}

/// `u8::is_ascii_whitespace`.
pub open spec fn is_ascii_ws_byte(b: u8) -> bool {
    b == 0x20 || b == 0x09 || b == 0x0a || b == 0x0c || b == 0x0d
}

/// First byte of a query field name: an ASCII letter or `_`.
pub open spec fn is_ident_start(b: u8) -> bool {
    (0x41 <= b <= 0x5a) || (0x61 <= b <= 0x7a) || b == 0x5f
}

/// Later bytes of a query field name: ASCII letters, digits, `_` and `.`.
pub open spec fn is_ident_continue(b: u8) -> bool {
    is_ident_start(b) || (0x30 <= b <= 0x39) || b == 0x2e
}

/// Width of the character that a UTF-8 leading byte starts.
pub open spec fn lead_len(b: u8) -> int {
    if b < 0x80 {
        1
    } else if b < 0xe0 {
        2
    } else if b < 0xf0 {
        3
    } else {
        4
    }
}

/// The end of the run of identifier bytes starting at `j`.
pub open spec fn ident_end(b: Seq<u8>, j: int) -> int
    decreases b.len() - j,
{
    if 0 <= j < b.len() && is_ident_continue(b[j]) {
        ident_end(b, j + 1)
    } else {
        j
    }
}

/// The end of the run of ASCII whitespace starting at `j`.
pub open spec fn ws_end(b: Seq<u8>, j: int) -> int
    decreases b.len() - j,
{
    if 0 <= j < b.len() && is_ascii_ws_byte(b[j]) {
        ws_end(b, j + 1)
    } else {
        j
    }
}

pub proof fn lemma_ident_end_bounds(b: Seq<u8>, j: int)
    requires
        0 <= j <= b.len(),
    ensures
        j <= ident_end(b, j) <= b.len(),
    decreases b.len() - j,
{
    if j < b.len() && is_ident_continue(b[j]) {
        lemma_ident_end_bounds(b, j + 1);
    }
}

pub proof fn lemma_ws_end_bounds(b: Seq<u8>, j: int)
    requires
        0 <= j <= b.len(),
    ensures
        j <= ws_end(b, j) <= b.len(),
    decreases b.len() - j,
{
    if j < b.len() && is_ascii_ws_byte(b[j]) {
        lemma_ws_end_bounds(b, j + 1);
    }
}

/// The characters of the ASCII bytes `b[start..end]`.
pub open spec fn ascii_text(b: Seq<u8>, start: int, end: int) -> Seq<char> {
    Seq::new((end - start) as nat, |t: int| b[start + t] as char)
}

/// What a scan of a query found outside quoted values.
pub struct ScanView {
    /// Field names followed by a comparison operator, in order.
    pub fields: Seq<Seq<char>>,
    pub has_wildcard_operator: bool,
    pub has_and: bool,
    pub has_or: bool,
    pub has_parenthesis: bool,
}

/// Why a query is syntactically malformed.
pub enum ScanError {
    UnbalancedParenthesis,
    UnclosedQuote,
}

/// `b[k..k + 2]` is the two bytes `x`, `y`.
pub open spec fn pair_at(b: Seq<u8>, k: int, x: u8, y: u8) -> bool {
    0 <= k && k + 2 <= b.len() && b[k] == x && b[k + 1] == y
}

/// The scanner over the UTF-8 bytes of a query, from byte `i` in the given
/// state. Quoted values (with backslash escapes) are skipped; `&&`, `||`, `*=`
/// and parentheses are recorded; an identifier followed by optional ASCII
/// whitespace and `=`, `==`, `!=` or `*=` is a queried field.
pub open spec fn scan_from(
    b: Seq<u8>,
    i: int,
    quoted: bool,
    escaped: bool,
    depth: int,
    acc: ScanView,
) -> Result<ScanView, ScanError>
    decreases b.len() + 4 - i,
{
    if i < 0 || i >= b.len() {
        if quoted {
            Err(ScanError::UnclosedQuote)
        } else if depth != 0 {
            Err(ScanError::UnbalancedParenthesis)
        } else {
            Ok(acc)
        }
    } else if quoted {
        let byte = b[i];
        if escaped {
            scan_from(b, i + lead_len(byte), true, false, depth, acc)
        } else if byte == 0x5c {
            scan_from(b, i + lead_len(byte), true, true, depth, acc)
        } else if byte == 0x22 {
            scan_from(b, i + lead_len(byte), false, false, depth, acc)
        } else {
            scan_from(b, i + lead_len(byte), true, false, depth, acc)
        }
    } else {
        let byte = b[i];
        if byte == 0x22 {
            scan_from(b, i + 1, true, escaped, depth, acc)
        } else if byte == 0x28 {
            scan_from(b, i + 1, false, escaped, depth + 1, ScanView { has_parenthesis: true, ..acc })
        } else if byte == 0x29 {
            if depth == 0 {
                Err(ScanError::UnbalancedParenthesis)
            } else {
                scan_from(
                    b,
                    i + 1,
                    false,
                    escaped,
                    depth - 1,
                    ScanView { has_parenthesis: true, ..acc },
                )
            }
        } else if pair_at(b, i, 0x26, 0x26) {
            scan_from(b, i + 2, false, escaped, depth, ScanView { has_and: true, ..acc })
        } else if pair_at(b, i, 0x7c, 0x7c) {
            scan_from(b, i + 2, false, escaped, depth, ScanView { has_or: true, ..acc })
        } else if pair_at(b, i, 0x2a, 0x3d) {
            scan_from(
                b,
                i + 2,
                false,
                escaped,
                depth,
                ScanView { has_wildcard_operator: true, ..acc },
            )
        } else if is_ident_start(byte) {
            let end = ident_end(b, i + 1);
            let k = ws_end(b, end);
            proof {
                lemma_ident_end_bounds(b, i + 1);
                lemma_ws_end_bounds(b, end);
            }
            let wild = pair_at(b, k, 0x2a, 0x3d);
            let two = pair_at(b, k, 0x3d, 0x3d) || pair_at(b, k, 0x21, 0x3d);
            let one = 0 <= k < b.len() && b[k] == 0x3d;
            let next = ScanView {
                fields: if wild || two || one {
                    acc.fields.push(ascii_text(b, i, end))
                } else {
                    acc.fields
                },
                has_wildcard_operator: acc.has_wildcard_operator || wild,
                ..acc
            };
            scan_from(b, k, false, escaped, depth, next)
        } else {
            scan_from(b, i + lead_len(byte), false, escaped, depth, acc)
        }
    }
}

pub open spec fn empty_scan() -> ScanView {
    ScanView {
        fields: Seq::empty(),
        has_wildcard_operator: false,
        has_and: false,
        has_or: false,
        has_parenthesis: false,
    }
}

/// The scan of a whole query.
pub open spec fn scan_spec(query: Seq<char>) -> Result<ScanView, ScanError> {
    scan_from(vstd::utf8::encode_utf8(query), 0, false, false, 0, empty_scan())
}

pub open spec fn scan_error_view(e: ScanError) -> FofaErrorView {
    match e {
        ScanError::UnbalancedParenthesis => FofaErrorView::InvalidQuery {
            reason: "查询语句括号不匹配"@,
        },
        ScanError::UnclosedQuote => FofaErrorView::InvalidQuery {
            reason: "查询语句包含未闭合的双引号"@,
        },
    }
}

/// The scan result of a query.
pub struct QueryScan {
    pub fields: Vec<String>,
    pub has_wildcard_operator: bool,
    pub has_and: bool,
    pub has_or: bool,
    pub has_parenthesis: bool,
}

pub open spec fn string_views(v: Seq<String>) -> Seq<Seq<char>> {
    v.map_values(|s: String| s@)
}

impl View for QueryScan {
    type V = ScanView;

    open spec fn view(&self) -> ScanView {
        ScanView {
            fields: string_views(self.fields@),
            has_wildcard_operator: self.has_wildcard_operator,
            has_and: self.has_and,
            has_or: self.has_or,
            has_parenthesis: self.has_parenthesis,
        }
    }
}

fn is_ident_start_exec(b: u8) -> (r: bool)
    ensures
        r == is_ident_start(b),
{
    (0x41 <= b && b <= 0x5a) || (0x61 <= b && b <= 0x7a) || b == 0x5f
}

fn is_ident_continue_exec(b: u8) -> (r: bool)
    ensures
        r == is_ident_continue(b),
{
    is_ident_start_exec(b) || (0x30 <= b && b <= 0x39) || b == 0x2e
}

fn utf8_char_len(b: u8) -> (n: usize)
    ensures
        n == lead_len(b),
{
    if b < 0x80 {
        1
    } else if b < 0xe0 {
        2
    } else if b < 0xf0 {
        3
    } else {
        4
    }
}

/// The string of the ASCII bytes `b[start..end]`.
fn ascii_string(b: &[u8], start: usize, end: usize) -> (s: String)
    requires
        start <= end <= b@.len(),
    ensures
        s@ == ascii_text(b@, start as int, end as int),
{
    let mut s = String::new();
    let mut i = start;
    while i < end
        invariant
            start <= i <= end <= b@.len(),
            s@ == ascii_text(b@, start as int, i as int),
        decreases end - i,
    {
        push_char(&mut s, b[i] as char);
        assert(s@ =~= ascii_text(b@, start as int, i + 1));
        i += 1;
    }
    s
}

/// Scans a query outside its quoted values.
pub fn scan_query(query: &str) -> (r: Result<QueryScan, FofaError>)
    requires
        utf8_len(query@) <= MAX_QUERY_CHARS,
    ensures
        match r {
            Ok(scan) => scan_spec(query@) == Ok::<ScanView, ScanError>(scan@),
            Err(e) => scan_spec(query@) is Err && e@ == scan_error_view(
                scan_spec(query@)->Err_0,
            ),
        },
{
    let bytes = query.as_bytes();
    proof {
        lemma_utf8_len_is_encoding_len(query@);
    }
    let n = bytes.len();
    let mut index: usize = 0;
    let mut quoted = false;
    let mut escaped = false;
    let mut depth: u32 = 0;
    let mut fields: Vec<String> = Vec::new();
    let mut has_wildcard_operator = false;
    let mut has_and = false;
    let mut has_or = false;
    let mut has_parenthesis = false;
    let ghost b = bytes@;
    assert(b == vstd::utf8::encode_utf8(query@));
    assert(string_views(fields@) =~= Seq::<Seq<char>>::empty());

    while index < n
        invariant
            b == bytes@,
            n == b.len(),
            n <= MAX_QUERY_CHARS,
            index <= n + 3,
            depth <= index,
            scan_spec(query@) == scan_from(
                b,
                index as int,
                quoted,
                escaped,
                depth as int,
                ScanView {
                    fields: string_views(fields@),
                    has_wildcard_operator,
                    has_and,
                    has_or,
                    has_parenthesis,
                },
            ),
        decreases n + 4 - index,
    {
        let byte = bytes[index];
        if quoted {
            if escaped {
                escaped = false;
            } else if byte == 0x5c {
                escaped = true;
            } else if byte == 0x22 {
                quoted = false;
            }
            index += utf8_char_len(byte);
            continue;
        }
        if byte == 0x22 {
            quoted = true;
            index += 1;
        } else if byte == 0x28 {
            has_parenthesis = true;
            depth += 1;
            index += 1;
        } else if byte == 0x29 {
            has_parenthesis = true;
            if depth == 0 {
                return Err(FofaError::invalid("查询语句括号不匹配"));
            }
            depth -= 1;
            index += 1;
        } else if byte == 0x26 && index + 1 < n && bytes[index + 1] == 0x26 {
            has_and = true;
            index += 2;
        } else if byte == 0x7c && index + 1 < n && bytes[index + 1] == 0x7c {
            has_or = true;
            index += 2;
        } else if byte == 0x2a && index + 1 < n && bytes[index + 1] == 0x3d {
            has_wildcard_operator = true;
            index += 2;
        } else if is_ident_start_exec(byte) {
            let start = index;
            index += 1;
            while index < n && is_ident_continue_exec(bytes[index])
                invariant
                    b == bytes@,
                    n == b.len(),
                    start < index <= n,
                    ident_end(b, start + 1) == ident_end(b, index as int),
                decreases n - index,
            {
                index += 1;
            }
            let end = index;
            assert(ident_end(b, start + 1) == end);
            while index < n && (bytes[index] == 0x20 || bytes[index] == 0x09 || bytes[index]
                == 0x0a || bytes[index] == 0x0c || bytes[index] == 0x0d)
                invariant
                    b == bytes@,
                    n == b.len(),
                    end <= index <= n,
                    ws_end(b, end as int) == ws_end(b, index as int),
                decreases n - index,
            {
                index += 1;
            }
            let k = index;
            assert(ws_end(b, end as int) == k);
            let wild = k + 2 <= n && bytes[k] == 0x2a && bytes[k + 1] == 0x3d;
            let two = k + 2 <= n && ((bytes[k] == 0x3d && bytes[k + 1] == 0x3d) || (bytes[k]
                == 0x21 && bytes[k + 1] == 0x3d));
            let one = k < n && bytes[k] == 0x3d;
            if wild {
                has_wildcard_operator = true;
            }
            if wild || two || one {
                let field = ascii_string(bytes, start, end);
                let ghost old_fields = fields@;
                fields.push(field);
                assert(string_views(fields@) =~= string_views(old_fields).push(field@));
            }
        } else {
            index += utf8_char_len(byte);
        }
    }
    if quoted {
        return Err(FofaError::invalid("查询语句包含未闭合的双引号"));
    }
    if depth != 0 {
        return Err(FofaError::invalid("查询语句括号不匹配"));
    }
    Ok(QueryScan { fields, has_wildcard_operator, has_and, has_or, has_parenthesis })
}

/// Characters allowed in an API field name.
pub open spec fn is_api_name_char(c: char) -> bool {
    crate::text::is_ascii_alnum(c) || c == '_' || c == '.'
}

/// What is wrong with field `i` of a field list, judged after the fields before it.
pub open spec fn field_problem(fields: Seq<ReturnFieldView>, i: int) -> Option<FofaErrorView> {
    let f = fields[i];
    if trimmed(f.output_name).len() == 0 || trimmed(f.api_name).len() == 0 {
        Some(FofaErrorView::InvalidQuery { reason: "返回字段名不能为空"@ })
    } else if !(forall|k: int| 0 <= k < f.api_name.len() ==> is_api_name_char(f.api_name[k])) {
        Some(
            FofaErrorView::UnsupportedField {
                field: f.api_name,
                reason: "API 字段名只能包含字母、数字、下划线和点"@,
            },
        )
    } else if exists|j: int| 0 <= j < i && #[trigger] fields[j].api_name == f.api_name {
        Some(FofaErrorView::UnsupportedField { field: f.api_name, reason: "返回字段重复"@ })
    } else {
        None
    }
}

/// The first problem among fields `i..`.
pub open spec fn first_field_problem(fields: Seq<ReturnFieldView>, i: int) -> Option<
    FofaErrorView,
>
    decreases fields.len() - i,
{
    if i < 0 || i >= fields.len() {
        None
    } else {
        match field_problem(fields, i) {
            Some(e) => Some(e),
            None => first_field_problem(fields, i + 1),
        }
    }
}

/// The return-field list must be non-empty, with non-blank names, well-formed and
/// distinct API names.
pub open spec fn field_shape_problem(fields: Seq<ReturnFieldView>) -> Option<FofaErrorView> {
    if fields.len() == 0 {
        Some(FofaErrorView::InvalidQuery { reason: "返回字段不能为空"@ })
    } else {
        first_field_problem(fields, 0)
    }
}

pub open spec fn relay_field_problem(f: Seq<char>) -> Option<FofaErrorView> {
    if name_views(RELAY_CONFLICT_QUERY_FIELDS@).contains(f) {
        Some(
            FofaErrorView::UnsupportedField {
                field: f,
                reason: "中转平台支持状态存在冲突，保守模式下禁用"@,
            },
        )
    } else if !name_views(RELAY_QUERY_FIELDS@).contains(f) {
        Some(FofaErrorView::UnsupportedField { field: f, reason: "中转端点不支持该查询字段"@ })
    } else {
        None
    }
}

pub open spec fn first_relay_field_problem(fields: Seq<Seq<char>>, i: int) -> Option<
    FofaErrorView,
>
    decreases fields.len() - i,
{
    if i < 0 || i >= fields.len() {
        None
    } else {
        match relay_field_problem(fields[i]) {
            Some(e) => Some(e),
            None => first_relay_field_problem(fields, i + 1),
        }
    }
}

/// The relay rejects `*=`, conflicting or unknown query fields, and a query
/// that combines `after` with `before`.
pub open spec fn relay_query_problem(scan: ScanView) -> Option<FofaErrorView> {
    if scan.has_wildcard_operator {
        Some(FofaErrorView::InvalidQuery { reason: "中转端点不支持 `*=` 运算符"@ })
    } else {
        match first_relay_field_problem(scan.fields, 0) {
            Some(e) => Some(e),
            None => if scan.fields.contains("after"@) && scan.fields.contains("before"@) {
                Some(
                    FofaErrorView::InvalidQuery {
                        reason: "中转端点不支持在同一查询中组合 after 与 before"@,
                    },
                )
            } else {
                None
            },
        }
    }
}

pub open spec fn unsupported_reason(mode: ApiMode) -> Seq<char> {
    match mode {
        ApiMode::Official => "FOFA 官方文档未列出该返回字段"@,
        ApiMode::Relay => "中转端点不支持该返回字段"@,
    }
}

pub open spec fn first_unsupported_field(
    mode: ApiMode,
    fields: Seq<ReturnFieldView>,
    i: int,
) -> Option<FofaErrorView>
    decreases fields.len() - i,
{
    if i < 0 || i >= fields.len() {
        None
    } else if !catalog(mode).contains(fields[i].api_name) {
        Some(
            FofaErrorView::UnsupportedField {
                field: fields[i].api_name,
                reason: unsupported_reason(mode),
            },
        )
    } else {
        first_unsupported_field(mode, fields, i + 1)
    }
}

/// A non-fatal remark about a valid query.
#[derive(Clone, Copy, Debug, PartialEq, Eq, Structural)]
pub enum ValidationWarning {
    AmbiguousBooleanPrecedence,
}

pub open spec fn warnings_of(scan: ScanView) -> Seq<ValidationWarning> {
    if scan.has_and && scan.has_or && !scan.has_parenthesis {
        seq![ValidationWarning::AmbiguousBooleanPrecedence]
    } else {
        Seq::empty()
    }
}

/// The outcome of validating `query` with `fields` for `mode`: the request
/// size cap and warnings, or the first rule the request breaks.
pub open spec fn validation_outcome(
    mode: ApiMode,
    query: Seq<char>,
    fields: Seq<ReturnFieldView>,
) -> Result<(u32, Seq<ValidationWarning>), FofaErrorView> {
    if trimmed(query).len() == 0 {
        Err(FofaErrorView::InvalidQuery { reason: "查询语句不能为空"@ })
    } else if utf8_len(query) > MAX_QUERY_CHARS {
        Err(FofaErrorView::InvalidQuery { reason: "查询语句过长，最大 16384 字节"@ })
    } else if field_shape_problem(fields) is Some {
        Err(field_shape_problem(fields)->Some_0)
    } else {
        match scan_spec(query) {
            Err(e) => Err(scan_error_view(e)),
            Ok(scan) => if mode == ApiMode::Relay && relay_query_problem(scan) is Some {
                Err(relay_query_problem(scan)->Some_0)
            } else if first_unsupported_field(mode, fields, 0) is Some {
                Err(first_unsupported_field(mode, fields, 0)->Some_0)
            } else {
                Ok((field_limit_spec(mode, fields), warnings_of(scan)))
            },
        }
    }
}

/// A return-field list that the mode accepts: not empty; every name
/// non-blank; API names made of letters, digits, `_` and `.`, pairwise
/// distinct and listed in the mode's catalog.
pub open spec fn fields_acceptable(mode: ApiMode, fields: Seq<ReturnFieldView>) -> bool {
    &&& fields.len() > 0
    &&& forall|i: int|
        0 <= i < fields.len() ==> {
            &&& trimmed(#[trigger] fields[i].output_name).len() > 0
            &&& trimmed(fields[i].api_name).len() > 0
            &&& forall|k: int|
                0 <= k < fields[i].api_name.len() ==> is_api_name_char(fields[i].api_name[k])
            &&& catalog(mode).contains(fields[i].api_name)
        }
    &&& forall|i: int, j: int|
        0 <= i < j < fields.len() ==> #[trigger] fields[i].api_name != #[trigger] fields[j].api_name
}

/// The query fields a relay accepts: no `*=`, every field known to the relay
/// and not conflicting, and not `after` together with `before`.
pub open spec fn relay_scan_acceptable(scan: ScanView) -> bool {
    &&& !scan.has_wildcard_operator
    &&& forall|i: int|
        0 <= i < scan.fields.len() ==> !name_views(RELAY_CONFLICT_QUERY_FIELDS@).contains(
            #[trigger] scan.fields[i],
        ) && name_views(RELAY_QUERY_FIELDS@).contains(scan.fields[i])
    &&& !(scan.fields.contains("after"@) && scan.fields.contains("before"@))
}

/// A query that the mode accepts: not blank, at most `MAX_QUERY_CHARS`
/// UTF-8 bytes, with closed quotes and balanced parentheses, and, for a
/// relay, only query fields the relay accepts.
pub open spec fn query_acceptable(mode: ApiMode, query: Seq<char>) -> bool {
    &&& trimmed(query).len() > 0
    &&& utf8_len(query) <= MAX_QUERY_CHARS
    &&& scan_spec(query) is Ok
    &&& mode == ApiMode::Relay ==> relay_scan_acceptable(scan_spec(query)->Ok_0)
}

proof fn lemma_first_field_problem(fields: Seq<ReturnFieldView>, i: int)
    requires
        0 <= i <= fields.len(),
    ensures
        first_field_problem(fields, i) is None <==> forall|j: int|
            i <= j < fields.len() ==> #[trigger] field_problem(fields, j) is None,
    decreases fields.len() - i,
{
    if i < fields.len() {
        lemma_first_field_problem(fields, i + 1);
    }
}

proof fn lemma_first_relay_field_problem(fs: Seq<Seq<char>>, i: int)
    requires
        0 <= i <= fs.len(),
    ensures
        first_relay_field_problem(fs, i) is None <==> forall|j: int|
            i <= j < fs.len() ==> #[trigger] relay_field_problem(fs[j]) is None,
    decreases fs.len() - i,
{
    if i < fs.len() {
        lemma_first_relay_field_problem(fs, i + 1);
    }
}

proof fn lemma_first_unsupported_field(mode: ApiMode, fields: Seq<ReturnFieldView>, i: int)
    requires
        0 <= i <= fields.len(),
    ensures
        first_unsupported_field(mode, fields, i) is None <==> forall|j: int|
            i <= j < fields.len() ==> catalog(mode).contains(#[trigger] fields[j].api_name),
    decreases fields.len() - i,
{
    if i < fields.len() {
        lemma_first_unsupported_field(mode, fields, i + 1);
    }
}

proof fn lemma_field_shape(fields: Seq<ReturnFieldView>)
    ensures
        field_shape_problem(fields) is None <==> {
            &&& fields.len() > 0
            &&& forall|i: int|
                0 <= i < fields.len() ==> {
                    &&& trimmed(#[trigger] fields[i].output_name).len() > 0
                    &&& trimmed(fields[i].api_name).len() > 0
                    &&& forall|k: int|
                        0 <= k < fields[i].api_name.len() ==> is_api_name_char(
                            fields[i].api_name[k],
                        )
                }
            &&& forall|i: int, j: int|
                0 <= i < j < fields.len() ==> #[trigger] fields[i].api_name
                    != #[trigger] fields[j].api_name
        },
{
    lemma_first_field_problem(fields, 0);
    if field_shape_problem(fields) is None {
        assert forall|i: int, j: int| 0 <= i < j < fields.len() implies #[trigger] fields[i].api_name
            != #[trigger] fields[j].api_name by {
            assert(field_problem(fields, j) is None);
        }
        assert forall|i: int| 0 <= i < fields.len() implies {
            &&& trimmed(#[trigger] fields[i].output_name).len() > 0
            &&& trimmed(fields[i].api_name).len() > 0
            &&& forall|k: int|
                0 <= k < fields[i].api_name.len() ==> is_api_name_char(fields[i].api_name[k])
        } by {
            assert(field_problem(fields, i) is None);
        }
    }
    if fields.len() > 0 && (forall|i: int|
        0 <= i < fields.len() ==> {
            &&& trimmed(#[trigger] fields[i].output_name).len() > 0
            &&& trimmed(fields[i].api_name).len() > 0
            &&& forall|k: int|
                0 <= k < fields[i].api_name.len() ==> is_api_name_char(fields[i].api_name[k])
        }) && (forall|i: int, j: int|
        0 <= i < j < fields.len() ==> #[trigger] fields[i].api_name != #[trigger] fields[j].api_name) {
        assert forall|j: int| 0 <= j < fields.len() implies #[trigger] field_problem(fields, j) is None by {
            assert(trimmed(fields[j].output_name).len() > 0);
            if exists|i: int| 0 <= i < j && #[trigger] fields[i].api_name == fields[j].api_name {
                let i = choose|i: int| 0 <= i < j && #[trigger] fields[i].api_name == fields[j].api_name;
                assert(fields[i].api_name != fields[j].api_name);
            }
        }
    }
}

proof fn lemma_relay_scan(scan: ScanView)
    ensures
        relay_query_problem(scan) is None <==> relay_scan_acceptable(scan),
{
    lemma_first_relay_field_problem(scan.fields, 0);
    if relay_scan_acceptable(scan) {
        assert forall|j: int| 0 <= j < scan.fields.len() implies #[trigger] relay_field_problem(
            scan.fields[j],
        ) is None by {
            assert(!name_views(RELAY_CONFLICT_QUERY_FIELDS@).contains(scan.fields[j]));
        }
    }
    if relay_query_problem(scan) is None {
        assert forall|i: int| 0 <= i < scan.fields.len() implies !name_views(
            RELAY_CONFLICT_QUERY_FIELDS@,
        ).contains(#[trigger] scan.fields[i]) && name_views(RELAY_QUERY_FIELDS@).contains(
            scan.fields[i],
        ) by {
            assert(relay_field_problem(scan.fields[i]) is None);
        }
    }
}

/// Validation succeeds exactly when the query and the fields are both
/// acceptable for the mode; a blank query and an over-long query are
/// refused as invalid queries, in that order, before anything else.
pub proof fn lemma_validation_accepts(mode: ApiMode, query: Seq<char>, fields: Seq<ReturnFieldView>)
    ensures
        validation_outcome(mode, query, fields) is Ok <==> query_acceptable(mode, query)
            && fields_acceptable(mode, fields),
        trimmed(query).len() == 0 ==> validation_outcome(mode, query, fields) == Err::<
            (u32, Seq<ValidationWarning>),
            FofaErrorView,
        >(FofaErrorView::InvalidQuery { reason: "查询语句不能为空"@ }),
        trimmed(query).len() > 0 && utf8_len(query) > MAX_QUERY_CHARS ==> validation_outcome(
            mode,
            query,
            fields,
        ) == Err::<(u32, Seq<ValidationWarning>), FofaErrorView>(
            FofaErrorView::InvalidQuery { reason: "查询语句过长，最大 16384 字节"@ },
        ),
{
    lemma_field_shape(fields);
    lemma_first_unsupported_field(mode, fields, 0);
    if scan_spec(query) is Ok {
        lemma_relay_scan(scan_spec(query)->Ok_0);
    }
    if fields_acceptable(mode, fields) {
        assert forall|j: int| 0 <= j < fields.len() implies catalog(mode).contains(
            #[trigger] fields[j].api_name,
        ) by {
            assert(trimmed(fields[j].output_name).len() > 0);
        }
        assert forall|i: int| 0 <= i < fields.len() implies {
            &&& trimmed(#[trigger] fields[i].output_name).len() > 0
            &&& trimmed(fields[i].api_name).len() > 0
            &&& forall|k: int|
                0 <= k < fields[i].api_name.len() ==> is_api_name_char(fields[i].api_name[k])
        } by {
            assert(trimmed(fields[i].output_name).len() > 0);
        }
        assert(field_shape_problem(fields) is None);
    }
    if validation_outcome(mode, query, fields) is Ok {
        assert(field_shape_problem(fields) is None);
        assert(first_unsupported_field(mode, fields, 0) is None);
        assert forall|i: int| 0 <= i < fields.len() implies {
            &&& trimmed(#[trigger] fields[i].output_name).len() > 0
            &&& trimmed(fields[i].api_name).len() > 0
            &&& forall|k: int|
                0 <= k < fields[i].api_name.len() ==> is_api_name_char(fields[i].api_name[k])
            &&& catalog(mode).contains(fields[i].api_name)
        } by {
            assert(trimmed(fields[i].output_name).len() > 0);
            assert(catalog(mode).contains(fields[i].api_name));
        }
        assert(fields_acceptable(mode, fields));
    }
}

/// A validated query and field list for the selected endpoint.
pub struct ValidatedSearch {
    query: String,
    fields: Vec<ReturnField>,
    max_request_size: u32,
    warnings: Vec<ValidationWarning>,
}

/// The mathematical value of a [`ValidatedSearch`].
pub struct ValidatedView {
    pub query: Seq<char>,
    pub fields: Seq<ReturnFieldView>,
    pub max_request_size: u32,
    pub warnings: Seq<ValidationWarning>,
}

impl View for ValidatedSearch {
    type V = ValidatedView;

    closed spec fn view(&self) -> ValidatedView {
        ValidatedView {
            query: self.query@,
            fields: crate::fofa::models::field_views(self.fields@),
            max_request_size: self.max_request_size,
            warnings: self.warnings@,
        }
    }
}

/// `min(remaining, cap)`, or the cap when no remainder is given.
pub open spec fn request_size_spec(cap: u32, remaining_rows: Option<u64>) -> u32 {
    match remaining_rows {
        Some(r) => if r < cap as u64 {
            r as u32
        } else {
            cap
        },
        None => cap,
    }
}

impl ValidatedSearch {
    pub fn query(&self) -> (q: &str)
        ensures
            q@ == self@.query,
    {
        self.query.as_str()
    }

    pub fn fields(&self) -> (f: &[ReturnField])
        ensures
            crate::fofa::models::field_views(f@) == self@.fields,
    {
        self.fields.as_slice()
    }

    pub fn max_request_size(&self) -> (n: u32)
        ensures
            n == self@.max_request_size,
    {
        self.max_request_size
    }

    pub fn warnings(&self) -> (w: &[ValidationWarning])
        ensures
            w@ == self@.warnings,
    {
        self.warnings.as_slice()
    }

    /// Cap the request by both the upstream limit and the remaining rows.
    pub fn request_size(&self, remaining_rows: Option<u64>) -> (n: u32)
        ensures
            n == request_size_spec(self@.max_request_size, remaining_rows),
    {
        match remaining_rows {
            Some(remaining) => if remaining < self.max_request_size as u64 {
                remaining as u32
            } else {
                self.max_request_size
            },
            None => self.max_request_size,
        }
    }

    pub fn to_search_query(&self, remaining_rows: Option<u64>) -> (s:
        crate::fofa::models::SearchQuery)
        ensures
            s.query@ == self@.query,
            crate::fofa::models::field_views(s.fields@) == self@.fields,
            s.size == request_size_spec(self@.max_request_size, remaining_rows),
            s.full == None::<bool>,
    {
        crate::fofa::models::SearchQuery::new(
            self.query.clone(),
            crate::fofa::models::duplicate_fields(self.fields.as_slice()),
            self.request_size(remaining_rows),
        )
    }

    pub fn into_search_query(self) -> (s: crate::fofa::models::SearchQuery)
        ensures
            s.query@ == self@.query,
            crate::fofa::models::field_views(s.fields@) == self@.fields,
            s.size == self@.max_request_size,
            s.full == None::<bool>,
    {
        crate::fofa::models::SearchQuery::new(self.query, self.fields, self.max_request_size)
    }
}

/// Validates queries and return fields for one upstream mode.
#[derive(Clone, Copy, Debug)]
pub struct QueryValidator {
    mode: ApiMode,
}

/// Whether `name` is among `names`.
fn names_contain(names: &[&str], name: &[char]) -> (b: bool)
    ensures
        b == name_views(names@).contains(name@),
{
    let mut i: usize = 0;
    while i < names.len()
        invariant
            i <= names@.len(),
            forall|k: int| 0 <= k < i ==> names@[k]@ != name@,
        decreases names@.len() - i,
    {
        let candidate = chars_of(names[i]);
        if chars_eq(candidate.as_slice(), name) {
            assert(name_views(names@)[i as int] == name@);
            return true;
        }
        i += 1;
    }
    assert forall|k: int| 0 <= k < name_views(names@).len() implies name_views(names@)[k]
        != name@ by {}
    false
}

fn check_field_shape(fields: &[ReturnField]) -> (r: Result<(), FofaError>)
    ensures
        match r {
            Ok(()) => field_shape_problem(crate::fofa::models::field_views(fields@)) is None,
            Err(e) => field_shape_problem(crate::fofa::models::field_views(fields@)) == Some(
                e@,
            ),
        },
{
    let ghost views = crate::fofa::models::field_views(fields@);
    if fields.len() == 0 {
        return Err(FofaError::invalid("返回字段不能为空"));
    }
    let mut seen: Vec<Vec<char>> = Vec::new();
    let mut i: usize = 0;
    while i < fields.len()
        invariant
            i <= fields@.len(),
            views == crate::fofa::models::field_views(fields@),
            views.len() > 0,
            seen@.len() == i,
            forall|k: int| 0 <= k < i ==> #[trigger] seen@[k]@ == views[k].api_name,
            first_field_problem(views, 0) == first_field_problem(views, i as int),
        decreases fields@.len() - i,
    {
        let field = &fields[i];
        let output = chars_of(field.output_name.as_str());
        let api = chars_of(field.api_name.as_str());
        let (oa, ob) = trim_bounds(output.as_slice());
        let (aa, ab) = trim_bounds(api.as_slice());
        assert(views[i as int].output_name == output@);
        assert(views[i as int].api_name == api@);
        if oa == ob || aa == ab {
            assert(field_problem(views, i as int) == Some(
                FofaErrorView::InvalidQuery { reason: "返回字段名不能为空"@ },
            ));
            return Err(FofaError::invalid("返回字段名不能为空"));
        }
        assert(trimmed(output@).len() != 0 && trimmed(api@).len() != 0);
        let mut k: usize = 0;
        while k < api.len()
            invariant
                k <= api@.len(),
                forall|m: int| 0 <= m < k ==> is_api_name_char(api@[m]),
                i < views.len(),
                api@ == views[i as int].api_name,
                field.api_name@ == api@,
                views == crate::fofa::models::field_views(fields@),
                trimmed(output@).len() != 0 && trimmed(api@).len() != 0,
                views[i as int].output_name == output@,
                first_field_problem(views, 0) == first_field_problem(views, i as int),
            decreases api@.len() - k,
        {
            let c = api[k];
            if !(('a' <= c && c <= 'z') || ('A' <= c && c <= 'Z') || ('0' <= c && c <= '9') || c
                == '_' || c == '.') {
                assert(!is_api_name_char(api@[k as int]));
                assert(views[i as int].api_name[k as int] == api@[k as int]);
                assert(field_problem(views, i as int) == Some(
                    FofaErrorView::UnsupportedField {
                        field: api@,
                        reason: "API 字段名只能包含字母、数字、下划线和点"@,
                    },
                ));
                return Err(
                    FofaError::unsupported(
                        field.api_name.as_str(),
                        "API 字段名只能包含字母、数字、下划线和点",
                    ),
                );
            }
            k += 1;
        }
        let mut j: usize = 0;
        while j < seen.len()
            invariant
                j <= seen@.len(),
                seen@.len() == i,
                forall|m: int| 0 <= m < i ==> #[trigger] seen@[m]@ == views[m].api_name,
                forall|m: int| 0 <= m < j ==> views[m].api_name != api@,
                first_field_problem(views, 0) == first_field_problem(views, i as int),
                i < views.len(),
                api@ == views[i as int].api_name,
                field.api_name@ == api@,
                views == crate::fofa::models::field_views(fields@),
                trimmed(output@).len() != 0 && trimmed(api@).len() != 0,
                views[i as int].output_name == output@,
                forall|m: int| 0 <= m < api@.len() ==> is_api_name_char(api@[m]),
            decreases seen@.len() - j,
        {
            if chars_eq(seen[j].as_slice(), api.as_slice()) {
                assert(seen@[j as int]@ == views[j as int].api_name);
                assert(views[j as int].api_name == views[i as int].api_name);
                assert(field_problem(views, i as int) == Some(
                    FofaErrorView::UnsupportedField { field: api@, reason: "返回字段重复"@ },
                ));
                assert(first_field_problem(views, i as int) == field_problem(views, i as int));
                assert(field_shape_problem(views) == first_field_problem(views, 0));

                return Err(FofaError::unsupported(field.api_name.as_str(), "返回字段重复"));
            }
            j += 1;
        }
        assert(field_problem(views, i as int) is None);
        seen.push(api);
        i += 1;
    }
    Ok(())
}

fn check_relay_query(scan: &QueryScan) -> (r: Result<(), FofaError>)
    ensures
        match r {
            Ok(()) => relay_query_problem(scan@) is None,
            Err(e) => relay_query_problem(scan@) == Some(e@),
        },
{
    if scan.has_wildcard_operator {
        return Err(FofaError::invalid("中转端点不支持 `*=` 运算符"));
    }
    let ghost fs = scan@.fields;
    let mut has_after = false;
    let mut has_before = false;
    let after = chars_of("after");
    let before = chars_of("before");
    let mut i: usize = 0;
    while i < scan.fields.len()
        invariant
            i <= scan.fields@.len(),
            fs == scan@.fields,
            after@ == "after"@,
            before@ == "before"@,
            first_relay_field_problem(fs, 0) == first_relay_field_problem(fs, i as int),
            has_after == fs.take(i as int).contains("after"@),
            has_before == fs.take(i as int).contains("before"@),
            !scan@.has_wildcard_operator,
        decreases scan.fields@.len() - i,
    {
        let field = chars_of(scan.fields[i].as_str());
        assert(field@ == fs[i as int]);
        if names_contain(&RELAY_CONFLICT_QUERY_FIELDS, field.as_slice()) {
            assert(first_relay_field_problem(fs, i as int) == relay_field_problem(fs[i as int]));
            assert(relay_field_problem(fs[i as int]) == Some(
                FofaErrorView::UnsupportedField {
                    field: fs[i as int],
                    reason: "中转平台支持状态存在冲突，保守模式下禁用"@,
                },
            ));
            assert(relay_query_problem(scan@) == first_relay_field_problem(fs, 0));
            return Err(
                FofaError::unsupported(
                    scan.fields[i].as_str(),
                    "中转平台支持状态存在冲突，保守模式下禁用",
                ),
            );
        }
        if !names_contain(&RELAY_QUERY_FIELDS, field.as_slice()) {
            assert(first_relay_field_problem(fs, i as int) == relay_field_problem(fs[i as int]));
            return Err(
                FofaError::unsupported(scan.fields[i].as_str(), "中转端点不支持该查询字段"),
            );
        }
        let is_after = chars_eq(field.as_slice(), after.as_slice());
        let is_before = chars_eq(field.as_slice(), before.as_slice());
        proof {
            let t = fs.take(i as int);
            let t1 = fs.take(i + 1);
            assert(t1 =~= t.push(fs[i as int]));
            assert(t1.contains("after"@) == (t.contains("after"@) || fs[i as int] == "after"@))
                by {
                if t1.contains("after"@) {
                    let w = choose|w: int| 0 <= w < t1.len() && t1[w] == "after"@;
                    if w < i {
                        assert(t[w] == "after"@);
                    }
                }
                if fs[i as int] == "after"@ {
                    assert(t1[i as int] == "after"@);
                }
                if t.contains("after"@) {
                    let w = choose|w: int| 0 <= w < t.len() && t[w] == "after"@;
                    assert(t1[w] == "after"@);
                }
            }
            assert(t1.contains("before"@) == (t.contains("before"@) || fs[i as int]
                == "before"@)) by {
                if t1.contains("before"@) {
                    let w = choose|w: int| 0 <= w < t1.len() && t1[w] == "before"@;
                    if w < i {
                        assert(t[w] == "before"@);
                    }
                }
                if fs[i as int] == "before"@ {
                    assert(t1[i as int] == "before"@);
                }
                if t.contains("before"@) {
                    let w = choose|w: int| 0 <= w < t.len() && t[w] == "before"@;
                    assert(t1[w] == "before"@);
                }
            }
        }
        has_after = has_after || is_after;
        has_before = has_before || is_before;
        i += 1;
    }
    assert(fs.take(fs.len() as int) =~= fs);
    if has_after && has_before {
        return Err(FofaError::invalid("中转端点不支持在同一查询中组合 after 与 before"));
    }
    Ok(())
}

fn check_supported_return_fields(mode: ApiMode, fields: &[ReturnField]) -> (r: Result<
    (),
    FofaError,
>)
    ensures
        match r {
            Ok(()) => first_unsupported_field(mode, crate::fofa::models::field_views(fields@), 0)
                is None,
            Err(e) => first_unsupported_field(
                mode,
                crate::fofa::models::field_views(fields@),
                0,
            ) == Some(e@),
        },
{
    let ghost views = crate::fofa::models::field_views(fields@);
    let names = supported_return_field_names(mode);
    let reason = match mode {
        ApiMode::Official => "FOFA 官方文档未列出该返回字段",
        ApiMode::Relay => "中转端点不支持该返回字段",
    };
    let mut i: usize = 0;
    while i < fields.len()
        invariant
            i <= fields@.len(),
            views == crate::fofa::models::field_views(fields@),
            name_views(names@) == catalog(mode),
            reason@ == unsupported_reason(mode),
            first_unsupported_field(mode, views, 0) == first_unsupported_field(
                mode,
                views,
                i as int,
            ),
        decreases fields@.len() - i,
    {
        let api = chars_of(fields[i].api_name.as_str());
        if !names_contain(names, api.as_slice()) {
            return Err(FofaError::unsupported(fields[i].api_name.as_str(), reason));
        }
        i += 1;
    }
    Ok(())
}

impl QueryValidator {
    pub fn new(mode: ApiMode) -> (v: QueryValidator)
        ensures
            v.mode_spec() == mode,
    {
        QueryValidator { mode }
    }

    /// A validator for the mode of a base URL.
    pub fn for_base_url(base_url: &str) -> (v: QueryValidator)
        ensures
            v.mode_spec() == mode_of_host(crate::urls::url_host(base_url@)),
    {
        QueryValidator::new(ApiMode::from_base_url(base_url))
    }

    /// The mode this validator checks against.
    pub closed spec fn mode_spec(&self) -> ApiMode {
        self.mode
    }

    pub fn mode(&self) -> (m: ApiMode)
        ensures
            m == self.mode_spec(),
    {
        self.mode
    }

    /// Validates a query and its return fields for this validator's mode.
    pub fn validate(&self, query: &str, fields: Vec<ReturnField>) -> (r: Result<
        ValidatedSearch,
        FofaError,
    >)
        ensures
            match r {
                Ok(v) => {
                    &&& validation_outcome(
                        self.mode_spec(),
                        query@,
                        crate::fofa::models::field_views(fields@),
                    ) == Ok::<(u32, Seq<ValidationWarning>), FofaErrorView>(
                        (v@.max_request_size, v@.warnings),
                    )
                    &&& v@.query == query@
                    &&& v@.fields == crate::fofa::models::field_views(fields@)
                },
                Err(e) => validation_outcome(
                    self.mode_spec(),
                    query@,
                    crate::fofa::models::field_views(fields@),
                ) == Err::<(u32, Seq<ValidationWarning>), FofaErrorView>(e@),
            },
    {
        let qv = chars_of(query);
        let (a, b) = trim_bounds(qv.as_slice());
        if a == b {
            return Err(FofaError::invalid("查询语句不能为空"));
        }
        if crate::text::utf8_len_exceeds(qv.as_slice(), MAX_QUERY_CHARS) {
            return Err(FofaError::invalid("查询语句过长，最大 16384 字节"));
        }
        match check_field_shape(fields.as_slice()) {
            Ok(()) => {},
            Err(e) => return Err(e),
        }
        let scan = match scan_query(query) {
            Ok(scan) => scan,
            Err(e) => return Err(e),
        };
        if self.mode == ApiMode::Relay {
            match check_relay_query(&scan) {
                Ok(()) => {},
                Err(e) => return Err(e),
            }
        }
        match check_supported_return_fields(self.mode, fields.as_slice()) {
            Ok(()) => {},
            Err(e) => return Err(e),
        }
        let max_request_size = field_limit(self.mode, fields.as_slice());
        let mut warnings: Vec<ValidationWarning> = Vec::new();
        if scan.has_and && scan.has_or && !scan.has_parenthesis {
            warnings.push(ValidationWarning::AmbiguousBooleanPrecedence);
        }
        assert(warnings@ =~= warnings_of(scan@));
        Ok(ValidatedSearch { query: query.to_owned(), fields, max_request_size, warnings })
    }
}

} // verus!
