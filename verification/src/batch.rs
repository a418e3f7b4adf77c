//! Parsing and normalisation of uploaded batch TXT files.
use vstd::prelude::*;

use crate::fofa::validator::MAX_QUERY_CHARS;
use crate::text::{
    capped_utf8_len, utf8_len_capped,
    chars_eq, chars_of, lemma_utf8_len_concat, lemma_utf8_len_is_encoding_len,
    lemma_utf8_len_subrange, push_str, slice_range, string_from_chars, trim_bounds, trimmed,
    utf8_len, utf8_len_of,
};

verus! {

/// Maximum upload size.
pub const MAX_UPLOAD_BYTES: usize = 10485760;

/// Maximum number of effective input lines.
pub const MAX_BATCH_LINES: usize = 10000;

/// Maximum byte length of one input line.
pub const MAX_QUERY_LINE_BYTES: usize = 16384;

/// How to interpret each effective input line.
#[derive(Clone, Debug, PartialEq, Eq)]
pub enum BatchMode {
    /// Each line is a canonical IPv4 or IPv6 network.
    Cidr { base_query: String },
    /// Each line is a complete FOFA query.
    FullQuery,
}

impl BatchMode {
    /// CIDR mode. An empty base query is allowed.
    pub fn cidr(base_query: &str) -> (m: BatchMode)
        ensures
            m matches BatchMode::Cidr { base_query: b } && b@ == base_query@,
    {
        BatchMode::Cidr { base_query: base_query.to_owned() }
    }

    /// Complete-query mode.
    pub fn full_query() -> (m: BatchMode)
        ensures
            m is FullQuery,
    {
        BatchMode::FullQuery
    }
}

/// Batch parser limits and normalisation options.
#[derive(Clone, Copy, Debug, PartialEq, Eq)]
pub struct BatchParseOptions {
    pub max_upload_bytes: usize,
    pub max_batch_lines: usize,
    pub max_query_line_bytes: usize,
    /// Remove later duplicates after normalisation.
    pub deduplicate: bool,
}

impl Default for BatchParseOptions {
    fn default() -> (o: BatchParseOptions)
        ensures
            o.max_upload_bytes == MAX_UPLOAD_BYTES,
            o.max_batch_lines == MAX_BATCH_LINES,
            o.max_query_line_bytes == MAX_QUERY_LINE_BYTES,
            !o.deduplicate,
    {
        BatchParseOptions {
            max_upload_bytes: MAX_UPLOAD_BYTES,
            max_batch_lines: MAX_BATCH_LINES,
            max_query_line_bytes: MAX_QUERY_LINE_BYTES,
            deduplicate: false,
        }
    }
}

impl BatchParseOptions {
    /// Toggle duplicate removal.
    pub fn with_deduplication(self, deduplicate: bool) -> (o: BatchParseOptions)
        ensures
            o == (BatchParseOptions { deduplicate, ..self }),
    {
        BatchParseOptions { deduplicate, ..self }
    }
}

/// Source column appended to batch exports.
#[derive(Clone, Copy, Debug, PartialEq, Eq)]
pub enum BatchSourceKind {
    Cidr,
    Query,
}

impl BatchSourceKind {
    /// Export header.
    pub fn export_field(self) -> (s: &'static str)
        ensures
            s@ == match self {
                BatchSourceKind::Cidr => "source_cidr"@,
                BatchSourceKind::Query => "source_query"@,
            },
    {
        match self {
            BatchSourceKind::Cidr => "source_cidr",
            BatchSourceKind::Query => "source_query",
        }
    }
}

/// One normalised, executable batch line.
#[derive(Clone, Debug, PartialEq, Eq)]
pub struct BatchItem {
    /// One-based line number in the decoded input.
    pub line_number: usize,
    /// Trimmed input line.
    pub source: String,
    /// Query sent to FOFA.
    pub query: String,
}

pub struct ItemView {
    pub line_number: nat,
    pub source: Seq<char>,
    pub query: Seq<char>,
}

impl View for BatchItem {
    type V = ItemView;

    open spec fn view(&self) -> ItemView {
        ItemView { line_number: self.line_number as nat, source: self.source@, query: self.query@ }
    }
}

pub open spec fn item_views(items: Seq<BatchItem>) -> Seq<ItemView> {
    items.map_values(|i: BatchItem| i@)
}

/// Parsed batch contents and counters.
#[derive(Clone, Debug, PartialEq, Eq)]
pub struct BatchDocument {
    pub source_kind: BatchSourceKind,
    pub items: Vec<BatchItem>,
    /// Effective input lines before deduplication.
    pub effective_lines: usize,
    /// Ignored blank and comment lines.
    pub ignored_lines: usize,
    /// Duplicates removed from `items`.
    pub deduplicated_lines: usize,
}

/// Line counters and kept items of a parse in progress.
pub struct Tally {
    pub items: Seq<ItemView>,
    pub effective: nat,
    pub ignored: nat,
    pub deduplicated: nat,
}

pub struct DocumentView {
    pub source_kind: BatchSourceKind,
    pub tally: Tally,
}

impl View for BatchDocument {
    type V = DocumentView;

    open spec fn view(&self) -> DocumentView {
        DocumentView {
            source_kind: self.source_kind,
            tally: Tally {
                items: item_views(self.items@),
                effective: self.effective_lines as nat,
                ignored: self.ignored_lines as nat,
                deduplicated: self.deduplicated_lines as nat,
            },
        }
    }
}

impl BatchDocument {
    pub fn items(&self) -> (r: &[BatchItem])
        ensures
            r@ == self.items@,
    {
        self.items.as_slice()
    }

    /// The same items as [`BatchDocument::items`].
    pub fn entries(&self) -> (r: &[BatchItem])
        ensures
            r@ == self.items@,
    {
        self.items.as_slice()
    }

    pub fn into_items(self) -> (r: Vec<BatchItem>)
        ensures
            r@ == self.items@,
    {
        self.items
    }

    pub fn len(&self) -> (n: usize)
        ensures
            n == self.items@.len(),
    {
        self.items.len()
    }

    pub fn is_empty(&self) -> (b: bool)
        ensures
            b == (self.items@.len() == 0),
    {
        self.items.len() == 0
    }
}

#[derive(Debug, PartialEq, Eq)]
pub enum BatchError {
    UploadTooLarge { actual: usize, max: usize },
    InvalidUtf8 { valid_up_to: usize },
    BinaryData { offset: usize },
    LineTooLong { line_number: usize, actual: usize, max: usize },
    TooManyLines { line_number: usize, max: usize },
    InvalidCidr { line_number: usize, value: String },
    NonCanonicalCidr { line_number: usize, value: String, canonical: String },
}

pub enum BatchErrorView {
    UploadTooLarge { actual: nat, max: nat },
    InvalidUtf8 { valid_up_to: nat },
    BinaryData { offset: nat },
    LineTooLong { line_number: nat, actual: nat, max: nat },
    TooManyLines { line_number: nat, max: nat },
    InvalidCidr { line_number: nat, value: Seq<char> },
    NonCanonicalCidr { line_number: nat, value: Seq<char>, canonical: Seq<char> },
}

impl View for BatchError {
    type V = BatchErrorView;

    open spec fn view(&self) -> BatchErrorView {
        match self {
            BatchError::UploadTooLarge { actual, max } => BatchErrorView::UploadTooLarge {
                actual: *actual as nat,
                max: *max as nat,
            },
            BatchError::InvalidUtf8 { valid_up_to } => BatchErrorView::InvalidUtf8 {
                valid_up_to: *valid_up_to as nat,
            },
            BatchError::BinaryData { offset } => BatchErrorView::BinaryData {
                offset: *offset as nat,
            },
            BatchError::LineTooLong { line_number, actual, max } => BatchErrorView::LineTooLong {
                line_number: *line_number as nat,
                actual: *actual as nat,
                max: *max as nat,
            },
            BatchError::TooManyLines { line_number, max } => BatchErrorView::TooManyLines {
                line_number: *line_number as nat,
                max: *max as nat,
            },
            BatchError::InvalidCidr { line_number, value } => BatchErrorView::InvalidCidr {
                line_number: *line_number as nat,
                value: value@,
            },
            BatchError::NonCanonicalCidr { line_number, value, canonical } =>
                BatchErrorView::NonCanonicalCidr {
                line_number: *line_number as nat,
                value: value@,
                canonical: canonical@,
            },
        }
    }
}

/// What `ipnet` makes of a text: `None` when it is not an IPv4 or IPv6 network
/// in CIDR notation, else the network's display and the display of the network
/// truncated to its prefix.
pub uninterp spec fn ip_network(text: Seq<char>) -> Option<(Seq<char>, Seq<char>)>;

/// Parses `text` as an `ipnet::IpNet` (`FromStr`) and returns the `Display` of
/// the network and of `IpNet::trunc`. Only the name is claimed, not the CIDR
/// grammar.
#[verifier::external_body]
fn ip_network_texts(text: &str) -> (r: Option<(String, String)>)
    ensures
        match r {
            Some((shown, canonical)) => ip_network(text@) == Some((shown@, canonical@)),
            None => ip_network(text@) is None,
        },
{
    let network = text.parse::<ipnet::IpNet>().ok()?;
    Some((network.to_string(), network.trunc().to_string()))
}

/// A CIDR line must parse, and must be written exactly as its own truncated network.
pub open spec fn cidr_problem(
    source: Seq<char>,
    network: Option<(Seq<char>, Seq<char>)>,
    line_number: nat,
) -> Option<BatchErrorView> {
    match network {
        None => Some(BatchErrorView::InvalidCidr { line_number, value: source }),
        Some((shown, canonical)) => if shown != canonical || source != canonical {
            Some(BatchErrorView::NonCanonicalCidr { line_number, value: source, canonical })
        } else {
            None
        },
    }
}

/// Checks a CIDR line against what `ipnet` made of it.
pub fn check_canonical_cidr(
    source: &str,
    network: Option<(String, String)>,
    line_number: usize,
) -> (r: Result<(), BatchError>)
    ensures
        match r {
            Ok(()) => cidr_problem(
                source@,
                match network {
                    Some((a, b)) => Some((a@, b@)),
                    None => None,
                },
                line_number as nat,
            ) is None,
            Err(e) => cidr_problem(
                source@,
                match network {
                    Some((a, b)) => Some((a@, b@)),
                    None => None,
                },
                line_number as nat,
            ) == Some(e@),
        },
{
    match network {
        None => Err(BatchError::InvalidCidr { line_number, value: source.to_owned() }),
        Some((shown, canonical)) => {
            let sv = chars_of(shown.as_str());
            let cv = chars_of(canonical.as_str());
            let src = chars_of(source);
            if !chars_eq(sv.as_slice(), cv.as_slice()) || !chars_eq(src.as_slice(), cv.as_slice()) {
                Err(BatchError::NonCanonicalCidr { line_number, value: source.to_owned(), canonical })
            } else {
                Ok(())
            }
        },
    }
}

/// The query of a CIDR line: the trimmed base query, parenthesised and joined
/// with `&&`, then `ip="<cidr>"`; only the `ip` term when the base is blank.
pub open spec fn composed_query(base_query: Seq<char>, cidr: Seq<char>) -> Seq<char> {
    let base = trimmed(base_query);
    if base.len() == 0 {
        "ip=\""@ + cidr + "\""@
    } else {
        "("@ + base + ") && ip=\""@ + cidr + "\""@
    }
}

/// Compose the query used by CIDR mode. `cidr` must already be canonical.
pub fn compose_cidr_query(base_query: &str, cidr: &str) -> (q: String)
    ensures
        q@ == composed_query(base_query@, cidr@),
{
    let base = crate::text::trim_string(base_query);
    let mut q = String::new();
    if base.as_str().is_empty() {
        push_str(&mut q, "ip=\"");
        push_str(&mut q, cidr);
        push_str(&mut q, "\"");
        assert(q@ =~= "ip=\""@ + cidr@ + "\""@);
    } else {
        push_str(&mut q, "(");
        push_str(&mut q, base.as_str());
        push_str(&mut q, ") && ip=\"");
        push_str(&mut q, cidr);
        push_str(&mut q, "\"");
        assert(q@ =~= "("@ + base@ + ") && ip=\""@ + cidr@ + "\""@);
    }
    q
}

/// The index of the first line feed at or after `p`, or the text length.
pub open spec fn newline_from(t: Seq<char>, p: int) -> int
    decreases t.len() - p,
{
    if p < 0 || p >= t.len() {
        t.len() as int
    } else if t[p] == '\n' {
        p
    } else {
        newline_from(t, p + 1)
    }
}

pub proof fn lemma_newline_from_bounds(t: Seq<char>, p: int)
    requires
        0 <= p <= t.len(),
    ensures
        p <= newline_from(t, p) <= t.len(),
        newline_from(t, p) < t.len() ==> t[newline_from(t, p)] == '\n',
        forall|k: int| p <= k < newline_from(t, p) ==> t[k] != '\n',
    decreases t.len() - p,
{
    if p < t.len() && t[p] != '\n' {
        lemma_newline_from_bounds(t, p + 1);
    }
}

/// The line starting at `p` as `str::lines` yields it: up to the next line
/// feed, without that feed and without a carriage return just before it.
pub open spec fn line_at(t: Seq<char>, p: int) -> Seq<char> {
    let e = newline_from(t, p);
    let raw = t.subrange(p, e);
    if e < t.len() && raw.len() > 0 && raw.last() == '\r' {
        raw.drop_last()
    } else {
        raw
    }
}

/// A control character other than tab, line feed, or a carriage return that
/// starts a CRLF pair.
pub open spec fn disallowed_control(t: Seq<char>, i: int) -> bool {
    crate::text::is_unicode_control(t[i]) && !(t[i] == '\n' || t[i] == '\t' || (t[i] == '\r'
        && i + 1 < t.len() && t[i + 1] == '\n'))
}

/// The first disallowed control character at or after `i`.
pub open spec fn first_disallowed(t: Seq<char>, i: int) -> Option<int>
    decreases t.len() - i,
{
    if i < 0 || i >= t.len() {
        None
    } else if disallowed_control(t, i) {
        Some(i)
    } else {
        first_disallowed(t, i + 1)
    }
}

/// The query of a source line, or why the line is rejected.
pub open spec fn line_query(
    source: Seq<char>,
    base: Option<Seq<char>>,
    line_number: nat,
) -> Result<Seq<char>, BatchErrorView> {
    match base {
        None => Ok(source),
        Some(b) => match cidr_problem(source, ip_network(source), line_number) {
            Some(e) => Err(e),
            None => {
                let q = composed_query(b, source);
                if utf8_len(q) > MAX_QUERY_CHARS {
                    Err(
                        BatchErrorView::LineTooLong {
                            line_number,
                            actual: capped_utf8_len(q),
                            max: MAX_QUERY_CHARS as nat,
                        },
                    )
                } else {
                    Ok(q)
                }
            },
        },
    }
}

/// Lines from position `p` (line number `line_number`) onwards, added to `acc`.
/// Blank and `#` lines are ignored; the raw line budget is checked before
/// trimming; the effective-line budget before deduplication; and with
/// deduplication on, a line whose trimmed text was already kept is dropped.
pub open spec fn lines_from(
    t: Seq<char>,
    p: int,
    line_number: nat,
    base: Option<Seq<char>>,
    opts: BatchParseOptions,
    acc: Tally,
) -> Result<Tally, BatchErrorView>
    decreases t.len() + 1 - p,
{
    if p < 0 || p >= t.len() {
        Ok(acc)
    } else {
        proof {
            lemma_newline_from_bounds(t, p);
        }
        let raw = line_at(t, p);
        let next = newline_from(t, p) + 1;
        let source = trimmed(raw);
        if source.len() == 0 || source[0] == '#' {
            lines_from(t, next, line_number + 1, base, opts, Tally { ignored: acc.ignored + 1, ..acc })
        } else if utf8_len(raw) > opts.max_query_line_bytes {
            Err(
                BatchErrorView::LineTooLong {
                    line_number,
                    actual: utf8_len(raw),
                    max: opts.max_query_line_bytes as nat,
                },
            )
        } else if acc.effective + 1 > opts.max_batch_lines {
            Err(BatchErrorView::TooManyLines { line_number, max: opts.max_batch_lines as nat })
        } else if opts.deduplicate && exists|k: int|
            0 <= k < acc.items.len() && #[trigger] acc.items[k].source == source {
            lines_from(
                t,
                next,
                line_number + 1,
                base,
                opts,
                Tally {
                    effective: acc.effective + 1,
                    deduplicated: acc.deduplicated + 1,
                    ..acc
                },
            )
        } else {
            match line_query(source, base, line_number) {
                Err(e) => Err(e),
                Ok(query) => {
                    lines_from(
                    t,
                    next,
                    line_number + 1,
                    base,
                    opts,
                    Tally {
                        items: acc.items.push(ItemView { line_number, source, query }),
                        effective: acc.effective + 1,
                        ..acc
                    },
                )
                },
            }
        }
    }
}

/// The largest `n <= k` such that the first `n` bytes are valid UTF-8.
pub open spec fn valid_prefix_len(bytes: Seq<u8>, k: int) -> int
    decreases k,
{
    if k <= 0 {
        0
    } else if vstd::utf8::valid_utf8(bytes.take(k)) {
        k
    } else {
        valid_prefix_len(bytes, k - 1)
    }
}

pub open spec fn base_of(mode: BatchMode) -> Option<Seq<char>> {
    match mode {
        BatchMode::Cidr { base_query } => Some(base_query@),
        BatchMode::FullQuery => None,
    }
}

pub open spec fn kind_of(mode: BatchMode) -> BatchSourceKind {
    match mode {
        BatchMode::Cidr { .. } => BatchSourceKind::Cidr,
        BatchMode::FullQuery => BatchSourceKind::Query,
    }
}

/// The text without a leading byte-order mark.
pub open spec fn without_bom(t: Seq<char>) -> Seq<char> {
    if t.len() > 0 && t[0] == '\u{feff}' {
        t.drop_first()
    } else {
        t
    }
}

pub open spec fn empty_tally() -> Tally {
    Tally { items: Seq::empty(), effective: 0, ignored: 0, deduplicated: 0 }
}

/// What parsing `bytes` in `mode` with `opts` yields.
pub open spec fn batch_outcome(bytes: Seq<u8>, mode: BatchMode, opts: BatchParseOptions) -> Result<
    DocumentView,
    BatchErrorView,
> {
    if bytes.len() > opts.max_upload_bytes {
        Err(
            BatchErrorView::UploadTooLarge {
                actual: bytes.len(),
                max: opts.max_upload_bytes as nat,
            },
        )
    } else if !vstd::utf8::valid_utf8(bytes) {
        Err(
            BatchErrorView::InvalidUtf8 {
                valid_up_to: valid_prefix_len(bytes, bytes.len() as int) as nat,
            },
        )
    } else {
        let t0 = vstd::utf8::decode_utf8(bytes);
        match first_disallowed(t0, 0) {
            Some(i) => Err(BatchErrorView::BinaryData { offset: utf8_len(t0.take(i)) }),
            None => match lines_from(without_bom(t0), 0, 1, base_of(mode), opts, empty_tally()) {
                Ok(tally) => Ok(DocumentView { source_kind: kind_of(mode), tally }),
                Err(e) => Err(e),
            },
        }
    }
}

/// The query an item of a batch carries: its source line in full-query
/// mode, the base query combined with its network in CIDR mode.
pub open spec fn item_query(base: Option<Seq<char>>, source: Seq<char>) -> Seq<char> {
    match base {
        None => source,
        Some(b) => composed_query(b, source),
    }
}

/// What holds of the items and counters of a batch: every effective line
/// is kept or removed as a duplicate; the line budget holds; nothing is
/// removed unless deduplication is on, and then no two kept lines are the
/// same; kept lines keep their order and line numbers; and each query is
/// derived from its line.
pub open spec fn tally_sound(acc: Tally, base: Option<Seq<char>>, opts: BatchParseOptions) -> bool {
    &&& acc.effective == acc.items.len() + acc.deduplicated
    &&& acc.effective <= opts.max_batch_lines
    &&& !opts.deduplicate ==> acc.deduplicated == 0
    &&& opts.deduplicate ==> forall|i: int, j: int|
        0 <= i < j < acc.items.len() ==> #[trigger] acc.items[i].source != #[trigger] acc.items[j].source
    &&& forall|i: int, j: int|
        0 <= i < j < acc.items.len() ==> #[trigger] acc.items[i].line_number
            < #[trigger] acc.items[j].line_number
    &&& forall|i: int|
        0 <= i < acc.items.len() ==> #[trigger] acc.items[i].query == item_query(
            base,
            acc.items[i].source,
        )
}

/// `tally_sound`, with every kept line before `next_line`.
pub open spec fn tally_ok(acc: Tally, next_line: nat, base: Option<Seq<char>>, opts: BatchParseOptions) -> bool {
    &&& tally_sound(acc, base, opts)
    &&& forall|i: int| 0 <= i < acc.items.len() ==> #[trigger] acc.items[i].line_number < next_line
}

proof fn lemma_line_query(source: Seq<char>, base: Option<Seq<char>>, line_number: nat)
    ensures
        line_query(source, base, line_number) matches Ok(q) ==> q == item_query(base, source),
{
}

/// Reading more lines keeps `tally_ok`.
proof fn lemma_lines_from_ok(
    t: Seq<char>,
    p: int,
    line_number: nat,
    base: Option<Seq<char>>,
    opts: BatchParseOptions,
    acc: Tally,
)
    requires
        tally_ok(acc, line_number, base, opts),
    ensures
        lines_from(t, p, line_number, base, opts, acc) matches Ok(r) ==> tally_sound(r, base, opts),
    decreases t.len() + 1 - p,
{
    if p < 0 || p >= t.len() {
    } else {
        lemma_newline_from_bounds(t, p);
        let raw = line_at(t, p);
        let next = newline_from(t, p) + 1;
        let source = trimmed(raw);
        if source.len() == 0 || source[0] == '#' {
            let a2 = Tally { ignored: acc.ignored + 1, ..acc };
            lemma_lines_from_ok(t, next, line_number + 1, base, opts, a2);
        } else if utf8_len(raw) > opts.max_query_line_bytes {
        } else if acc.effective + 1 > opts.max_batch_lines {
        } else if opts.deduplicate && exists|k: int|
            0 <= k < acc.items.len() && #[trigger] acc.items[k].source == source {
            let a2 = Tally {
                effective: acc.effective + 1,
                deduplicated: acc.deduplicated + 1,
                ..acc
            };
            lemma_lines_from_ok(t, next, line_number + 1, base, opts, a2);
        } else {
            lemma_line_query(source, base, line_number);
            match line_query(source, base, line_number) {
                Err(e) => {},
                Ok(query) => {
                    let item = ItemView { line_number, source, query };
                    let a2 = Tally {
                        items: acc.items.push(item),
                        effective: acc.effective + 1,
                        ..acc
                    };
                    assert(tally_ok(a2, line_number + 1, base, opts)) by {
                        assert forall|i: int, j: int| 0 <= i < j < a2.items.len() implies #[trigger] a2.items[i].line_number
                            < #[trigger] a2.items[j].line_number by {
                            if j < acc.items.len() {
                                assert(acc.items[i].line_number < acc.items[j].line_number);
                            } else {
                                assert(acc.items[i].line_number < line_number);
                            }
                        }
                        if opts.deduplicate {
                            assert forall|i: int, j: int| 0 <= i < j < a2.items.len() implies #[trigger] a2.items[i].source
                                != #[trigger] a2.items[j].source by {
                                if j < acc.items.len() {
                                    assert(acc.items[i].source != acc.items[j].source);
                                } else if a2.items[i].source == source {
                                    assert(acc.items[i].source == source);
                                }
                            }
                        }
                        assert forall|i: int| 0 <= i < a2.items.len() implies #[trigger] a2.items[i].line_number
                            < line_number + 1 by {
                            if i < acc.items.len() {
                                assert(acc.items[i].line_number < line_number);
                            }
                        }
                        assert forall|i: int| 0 <= i < a2.items.len() implies #[trigger] a2.items[i].query
                            == item_query(base, a2.items[i].source) by {
                            if i < acc.items.len() {
                                assert(acc.items[i].query == item_query(base, acc.items[i].source));
                            }
                        }
                    }
                    lemma_lines_from_ok(t, next, line_number + 1, base, opts, a2);
                        },
            }
        }
    }
}

/// The lines from position `p` on, as `str::lines` yields them.
pub open spec fn lines_at(t: Seq<char>, p: int) -> Seq<Seq<char>>
    decreases t.len() + 1 - p,
{
    if p < 0 || p >= t.len() {
        Seq::empty()
    } else {
        proof {
            lemma_newline_from_bounds(t, p);
        }
        seq![line_at(t, p)] + lines_at(t, newline_from(t, p) + 1)
    }
}

/// The lines of an upload: its decoded text, without a leading byte-order
/// mark, split as `str::lines` splits it.
pub open spec fn batch_lines(bytes: Seq<u8>) -> Seq<Seq<char>> {
    lines_at(without_bom(vstd::utf8::decode_utf8(bytes)), 0)
}

/// Every line read so far is counted once, and each kept item is the
/// trimmed text of the line it names.
pub open spec fn tally_matches(acc: Tally, lines: Seq<Seq<char>>) -> bool {
    &&& acc.effective + acc.ignored == lines.len()
    &&& forall|i: int|
        0 <= i < acc.items.len() ==> 1 <= #[trigger] acc.items[i].line_number <= lines.len()
            && acc.items[i].source == trimmed(lines[acc.items[i].line_number - 1])
}

/// Reading the lines from `p` on counts each of them once and keeps each
/// item's source as its trimmed line.
proof fn lemma_lines_from_count(
    t: Seq<char>,
    p: int,
    line_number: nat,
    base: Option<Seq<char>>,
    opts: BatchParseOptions,
    acc: Tally,
    prefix: Seq<Seq<char>>,
)
    requires
        0 <= p,
        prefix.len() + 1 == line_number,
        tally_matches(acc, prefix),
    ensures
        lines_from(t, p, line_number, base, opts, acc) matches Ok(r) ==> tally_matches(
            r,
            prefix + lines_at(t, p),
        ),
    decreases t.len() + 1 - p,
{
    if p >= t.len() {
        assert(prefix + lines_at(t, p) =~= prefix);
    } else {
        lemma_newline_from_bounds(t, p);
        let raw = line_at(t, p);
        let next = newline_from(t, p) + 1;
        let source = trimmed(raw);
        let prefix2 = prefix.push(raw);
        assert(prefix + lines_at(t, p) =~= prefix2 + lines_at(t, next));
        assert forall|i: int| 0 <= i < acc.items.len() implies 1 <= #[trigger] acc.items[i].line_number
            <= prefix2.len() && acc.items[i].source == trimmed(
            prefix2[acc.items[i].line_number - 1],
        ) by {
            assert(prefix2[acc.items[i].line_number - 1] == prefix[acc.items[i].line_number - 1]);
        }
        if source.len() == 0 || source[0] == '#' {
            let a2 = Tally { ignored: acc.ignored + 1, ..acc };
            lemma_lines_from_count(t, next, line_number + 1, base, opts, a2, prefix2);
        } else if utf8_len(raw) > opts.max_query_line_bytes {
        } else if acc.effective + 1 > opts.max_batch_lines {
        } else if opts.deduplicate && exists|k: int|
            0 <= k < acc.items.len() && #[trigger] acc.items[k].source == source {
            let a2 = Tally {
                effective: acc.effective + 1,
                deduplicated: acc.deduplicated + 1,
                ..acc
            };
            lemma_lines_from_count(t, next, line_number + 1, base, opts, a2, prefix2);
        } else {
            match line_query(source, base, line_number) {
                Err(e) => {},
                Ok(query) => {
                    let item = ItemView { line_number, source, query };
                    let a2 = Tally {
                        items: acc.items.push(item),
                        effective: acc.effective + 1,
                        ..acc
                    };
                    assert(tally_matches(a2, prefix2)) by {
                        assert forall|i: int| 0 <= i < a2.items.len() implies 1
                            <= #[trigger] a2.items[i].line_number <= prefix2.len()
                            && a2.items[i].source == trimmed(
                            prefix2[a2.items[i].line_number - 1],
                        ) by {
                            if i < acc.items.len() {
                                assert(a2.items[i] == acc.items[i]);
                            }
                        }
                    }
                    lemma_lines_from_count(t, next, line_number + 1, base, opts, a2, prefix2);
                },
            }
        }
    }
}

/// A parsed batch keeps every promise of `tally_sound`: effective lines are
/// the kept items plus the removed duplicates, within the line budget;
/// duplicates are removed only when deduplication is on, and then the kept
/// lines are distinct and each is the first occurrence; line numbers
/// increase; each query is the line (full-query mode) or the base query
/// combined with the line's network (CIDR mode). Every line of the upload
/// is counted once, as effective or ignored, and each kept item's source is
/// the trimmed text of the line it names.
pub proof fn lemma_batch_document(bytes: Seq<u8>, mode: BatchMode, opts: BatchParseOptions)
    ensures
        batch_outcome(bytes, mode, opts) matches Ok(doc) ==> tally_sound(
            doc.tally,
            base_of(mode),
            opts,
        ),
        batch_outcome(bytes, mode, opts) matches Ok(doc) ==> tally_matches(
            doc.tally,
            batch_lines(bytes),
        ),
{
    if bytes.len() <= opts.max_upload_bytes && vstd::utf8::valid_utf8(bytes) {
        let t0 = vstd::utf8::decode_utf8(bytes);
        if first_disallowed(t0, 0) is None {
            let t = without_bom(t0);
            assert(tally_ok(empty_tally(), 1, base_of(mode), opts));
            lemma_lines_from_ok(t, 0, 1, base_of(mode), opts, empty_tally());
            lemma_lines_from_count(t, 0, 1, base_of(mode), opts, empty_tally(), Seq::empty());
            assert(Seq::<Seq<char>>::empty() + lines_at(t, 0) =~= batch_lines(bytes));
        }
    }
}

/// `std::str::from_utf8`, with `Utf8Error::valid_up_to` on failure.
#[verifier::external_body]
fn utf8_text(bytes: &[u8]) -> (r: Result<&str, usize>)
    ensures
        match r {
            Ok(s) => vstd::utf8::valid_utf8(bytes@) && s@ == vstd::utf8::decode_utf8(bytes@),
            Err(n) => {
                &&& !vstd::utf8::valid_utf8(bytes@)
                &&& n <= bytes@.len()
                &&& vstd::utf8::valid_utf8(bytes@.take(n as int))
                &&& forall|m: int|
                    n < m <= bytes@.len() ==> !vstd::utf8::valid_utf8(#[trigger] bytes@.take(m))
            },
        },
{
    std::str::from_utf8(bytes).map_err(|error| error.valid_up_to())
}

proof fn lemma_valid_prefix_len(bytes: Seq<u8>, n: int, k: int)
    requires
        0 <= n <= k <= bytes.len(),
        vstd::utf8::valid_utf8(bytes.take(n)),
        forall|m: int| n < m <= bytes.len() ==> !vstd::utf8::valid_utf8(#[trigger] bytes.take(m)),
    ensures
        valid_prefix_len(bytes, k) == n,
    decreases k,
{
    if k > n {
        lemma_valid_prefix_len(bytes, n, k - 1);
    }
}

fn first_disallowed_offset(t: &[char], total: Ghost<nat>) -> (r: Result<(), BatchError>)
    requires
        utf8_len(t@) == total@,
        total@ <= usize::MAX,
    ensures
        match r {
            Ok(()) => first_disallowed(t@, 0) is None,
            Err(e) => first_disallowed(t@, 0) matches Some(i) && e@ == (BatchErrorView::BinaryData {
                offset: utf8_len(t@.take(i)),
            }),
        },
{
    let mut offset: usize = 0;
    let mut i: usize = 0;
    while i < t.len()
        invariant
            i <= t@.len(),
            offset == utf8_len(t@.take(i as int)),
            utf8_len(t@) == total@,
            total@ <= usize::MAX,
            first_disallowed(t@, 0) == first_disallowed(t@, i as int),
        decreases t@.len() - i,
    {
        let c = t[i];
        if crate::text::is_control(c) {
            let allowed = c == '\n' || c == '\t' || (c == '\r' && i + 1 < t.len() && t[i + 1]
                == '\n');
            if !allowed {
                return Err(BatchError::BinaryData { offset });
            }
        }
        proof {
            crate::text::lemma_utf8_len_take(t@, i as int);
            crate::text::lemma_utf8_len_prefix_le(t@, i + 1);
        }
        offset = offset + crate::text::utf8_width(c);
        i += 1;
    }
    Ok(())
}

fn newline_index(t: &[char], p: usize) -> (e: usize)
    requires
        p <= t@.len(),
    ensures
        e == newline_from(t@, p as int),
{
    let mut e = p;
    while e < t.len() && t[e] != '\n'
        invariant
            p <= e <= t@.len(),
            newline_from(t@, p as int) == newline_from(t@, e as int),
        decreases t@.len() - e,
    {
        e += 1;
    }
    e
}

fn seen_contains(seen: &Vec<Vec<char>>, s: &[char]) -> (b: bool)
    ensures
        b == exists|k: int| 0 <= k < seen@.len() && #[trigger] seen@[k]@ == s@,
{
    let mut k: usize = 0;
    while k < seen.len()
        invariant
            k <= seen@.len(),
            forall|m: int| 0 <= m < k ==> #[trigger] seen@[m]@ != s@,
        decreases seen@.len() - k,
    {
        if chars_eq(seen[k].as_slice(), s) {
            return true;
        }
        k += 1;
    }
    false
}

/// Parse an uploaded TXT file in the selected mode.
///
/// Accepts a UTF-8 BOM and CRLF line endings, trims effective lines, ignores
/// blank and `#` comment lines, and keeps original line numbers.
pub fn parse_batch(bytes: &[u8], mode: BatchMode, options: &BatchParseOptions) -> (r: Result<
    BatchDocument,
    BatchError,
>)
    requires
// Rust never builds a slice longer than isize::MAX bytes.

        bytes@.len() <= isize::MAX,
    ensures
        match r {
            Ok(doc) => batch_outcome(bytes@, mode, *options) == Ok::<DocumentView, BatchErrorView>(
                doc@,
            ),
            Err(e) => batch_outcome(bytes@, mode, *options) == Err::<DocumentView, BatchErrorView>(
                e@,
            ),
        },
{
    if bytes.len() > options.max_upload_bytes {
        return Err(
            BatchError::UploadTooLarge { actual: bytes.len(), max: options.max_upload_bytes },
        );
    }
    let text = match utf8_text(bytes) {
        Ok(text) => text,
        Err(n) => {
            proof {
                lemma_valid_prefix_len(bytes@, n as int, bytes@.len() as int);
            }
            return Err(BatchError::InvalidUtf8 { valid_up_to: n });
        },
    };
    let chars = chars_of(text);
    let ghost t0 = chars@;
    proof {
        vstd::utf8::decode_utf8_encode_utf8(bytes@);
        lemma_utf8_len_is_encoding_len(t0);
    }
    match first_disallowed_offset(chars.as_slice(), Ghost(utf8_len(t0))) {
        Ok(()) => {},
        Err(e) => return Err(e),
    }
    let start: usize = if chars.len() > 0 && chars[0] == '\u{feff}' {
        1
    } else {
        0
    };
    let t = slice_range(chars.as_slice(), start, chars.len());
    assert(t@ =~= without_bom(t0));
    proof {
        lemma_utf8_len_subrange(t0, start as int, t0.len() as int);
        crate::text::lemma_utf8_len_bounds(t@);
    }
    let n = t.len();
    let ghost base = base_of(mode);
    let ghost opts = *options;
    let base: Option<&str> = match &mode {
        BatchMode::Cidr { base_query } => Some(base_query.as_str()),
        BatchMode::FullQuery => None,
    };
    let source_kind = match &mode {
        BatchMode::Cidr { .. } => BatchSourceKind::Cidr,
        BatchMode::FullQuery => BatchSourceKind::Query,
    };
    let mut items: Vec<BatchItem> = Vec::new();
    let mut seen: Vec<Vec<char>> = Vec::new();
    let mut effective: usize = 0;
    let mut ignored: usize = 0;
    let mut deduplicated: usize = 0;
    let mut p: usize = 0;
    let mut line_number: usize = 1;
    assert(item_views(items@) =~= Seq::<ItemView>::empty());
    assert(batch_outcome(bytes@, mode, opts) == match lines_from(t@, 0, 1, base_of(mode), opts, empty_tally()) {
        Ok(tally) => Ok(DocumentView { source_kind: kind_of(mode), tally }),
        Err(e) => Err(e),
    });
    while p < n
        invariant
            n == t@.len(),
            kind_of(mode) == source_kind,
            batch_outcome(bytes@, mode, opts) == match lines_from(t@, 0, 1, base_of(mode), opts, empty_tally()) {
                Ok(tally) => Ok(DocumentView { source_kind: kind_of(mode), tally }),
                Err(e) => Err(e),
            },
            utf8_len(t@) <= bytes@.len(),
            bytes@.len() <= isize::MAX,
            n <= utf8_len(t@),
            p <= n + 1,
            1 <= line_number <= p + 1,
            ignored + effective + 1 <= line_number,
            deduplicated <= effective,
            opts == *options,
            match base {
                Some(b) => base_of(mode) == Some(b@),
                None => base_of(mode) is None,
            },
            seen@.len() == items@.len(),
            forall|k: int| 0 <= k < seen@.len() ==> #[trigger] seen@[k]@ == items@[k].source@,
            lines_from(t@, 0, 1, base_of(mode), opts, empty_tally()) == lines_from(
                t@,
                p as int,
                line_number as nat,
                base_of(mode),
                opts,
                Tally {
                    items: item_views(items@),
                    effective: effective as nat,
                    ignored: ignored as nat,
                    deduplicated: deduplicated as nat,
                },
            ),
        decreases n + 1 - p,
    {
        let e = newline_index(t, p);
        proof {
            lemma_newline_from_bounds(t@, p as int);
        }
        let mut end = e;
        if e < n && end > p && t[end - 1] == '\r' {
            end = end - 1;
        }
        let raw = slice_range(t, p, end);
        assert(raw@ =~= line_at(t@, p as int));
        let (a, b) = trim_bounds(raw);
        let source_chars = slice_range(raw, a, b);
        if a == b || source_chars[0] == '#' {
            ignored = ignored + 1;
        } else {
            proof {
                lemma_utf8_len_subrange(t@, p as int, end as int);
            }
            let line_bytes = utf8_len_of(raw);
            if line_bytes > options.max_query_line_bytes {
                return Err(
                    BatchError::LineTooLong {
                        line_number,
                        actual: line_bytes,
                        max: options.max_query_line_bytes,
                    },
                );
            }
            if effective >= options.max_batch_lines {
                return Err(
                    BatchError::TooManyLines { line_number, max: options.max_batch_lines },
                );
            }
            let duplicate = options.deduplicate && seen_contains(&seen, source_chars);
            if duplicate {
                proof {
                    let k = choose|k: int| 0 <= k < seen@.len() && #[trigger] seen@[k]@ == source_chars@;
                    assert(item_views(items@)[k].source == source_chars@);
                }
                effective = effective + 1;
                deduplicated = deduplicated + 1;
            } else {
                proof {
                    if opts.deduplicate {
                        assert forall|k: int| 0 <= k < item_views(items@).len() implies #[trigger] item_views(items@)[k].source != source_chars@ by {
                            assert(seen@[k]@ == items@[k].source@);
                        }
                    }
                }
                let source = string_from_chars(source_chars);
                let query = match base {
                    None => string_from_chars(source_chars),
                    Some(base_query) => {
                        let network = ip_network_texts(source.as_str());
                        match check_canonical_cidr(source.as_str(), network, line_number) {
                            Ok(()) => {},
                            Err(e) => return Err(e),
                        }
                        let q = compose_cidr_query(base_query, source.as_str());
                        let qv = chars_of(q.as_str());
                        if crate::text::utf8_len_exceeds(qv.as_slice(), MAX_QUERY_CHARS) {
                            return Err(
                                BatchError::LineTooLong {
                                    line_number,
                                    actual: utf8_len_capped(qv.as_slice()),
                                    max: MAX_QUERY_CHARS,
                                },
                            );
                        }
                        q
                    },
                };
                let ghost old_items = items@;
                let item = BatchItem { line_number, source, query };
                items.push(item);
                assert(item_views(items@) =~= item_views(old_items).push(item@));
                seen.push(vstd::slice::slice_to_vec(source_chars));
                effective = effective + 1;
            }
        }
        line_number = line_number + 1;
        p = e + 1;
    }
    Ok(
        BatchDocument {
            source_kind,
            items,
            effective_lines: effective,
            ignored_lines: ignored,
            deduplicated_lines: deduplicated,
        },
    )
}

/// Parse with default limits and deduplication disabled.
pub fn parse_batch_default(bytes: &[u8], mode: BatchMode) -> (r: Result<BatchDocument, BatchError>)
    requires
        bytes@.len() <= isize::MAX,
    ensures
        match r {
            Ok(doc) => batch_outcome(bytes@, mode, BatchParseOptions {
                max_upload_bytes: MAX_UPLOAD_BYTES,
                max_batch_lines: MAX_BATCH_LINES,
                max_query_line_bytes: MAX_QUERY_LINE_BYTES,
                deduplicate: false,
            }) == Ok::<DocumentView, BatchErrorView>(doc@),
            Err(e) => batch_outcome(bytes@, mode, BatchParseOptions {
                max_upload_bytes: MAX_UPLOAD_BYTES,
                max_batch_lines: MAX_BATCH_LINES,
                max_query_line_bytes: MAX_QUERY_LINE_BYTES,
                deduplicate: false,
            }) == Err::<DocumentView, BatchErrorView>(e@),
        },
{
    parse_batch(bytes, mode, &BatchParseOptions::default())
}

} // verus!
